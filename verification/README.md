# kbo-cli

A live scoreboard of Korean league and Asian Games baseball for the terminal. The
library is written in Verus: what is asked of the sports service, what its answers mean
and how they are drawn is stated in contracts and proved.

## Layout

- `src/` is the library.
  - `naver` holds the requests, the answers and what they say of a game; `relay`,
    `scores` and `players` read the parts of an answer; `card` puts a game together.
  - `text`, `number`, `width`, `style` and `teams` are texts on a terminal: their
    columns, colours and numbers.
  - `panel` and `board` draw a game, and all games of a day: three above two, and three
    in each row below. `plain` proves that plain texts keep to the columns of a panel.
  - `clock`, `competition`, `cli` and `live` decide what is shown when.
- `tests/` runs the library on examples.
- `app/` is the program: the command line, HTTP and the terminal.

## Commands

    kbo-cli
    kbo-cli live [--date YYYY-MM-DD] [--interval SECONDS] [--once]
    kbo-cli asian-games [--date YYYY-MM-DD] [--interval SECONDS] [--once]
    kbo-cli ag [--date YYYY-MM-DD] [--interval SECONDS] [--once]

Without a command, `live` runs. `q` quits and `r` refreshes at once.
