//! The board: three panels above two, and more rows where there are more games, below a
//! line with the title.
use vstd::prelude::*;

use crate::card::GameCard;
use crate::competition::Competition;
use crate::number::{parse_usize, write_decimal};
use crate::panel::render_panel;
use crate::style::{bold, dim};
use crate::text::{chars_of, repeat_char};
use crate::width::fit;
#[allow(unused_imports)]
use crate::{
    card::texts,
    number::{decimal, law_numbers_are_digits, parsed_count},
    panel::{law_panel_height, panel},
    style::{in_bold, in_dim},
    text::blanks,
    width::{fitted, less},
};

verus! {

/// The columns between two panels.
pub const GUTTER: usize = 2;

/// The count that a variable of the environment gives, or `other`.
pub open spec fn variable_or(variable: Option<String>, other: nat) -> nat {
    match variable {
        Some(text) => parsed_count(text@, usize::MAX as nat).unwrap_or(other),
        None => other,
    }
}

fn read_variable(variable: &Option<String>, other: usize) -> (count: usize)
    ensures
        count == variable_or(*variable, other as nat),
{
    match variable {
        Some(text) => match parse_usize(text) {
            Some(count) => count,
            None => other,
        },
        None => other,
    }
}

/// The columns and lines of the terminal: as it reports them, or else as the variables
/// `COLUMNS` and `LINES` say, or else 180 and 50.
pub fn terminal_size(
    reported: Option<(u16, u16)>,
    columns: &Option<String>,
    lines: &Option<String>,
) -> (size: (usize, usize))
    ensures
        match reported {
            Some((width, height)) => size.0 == width && size.1 == height,
            None => size.0 == variable_or(*columns, 180) && size.1 == variable_or(*lines, 50),
        },
{
    match reported {
        Some((width, height)) => (width as usize, height as usize),
        None => (read_variable(columns, 180), read_variable(lines, 50)),
    }
}

/// The columns of the board on a terminal: all but one, yet one at least.
pub open spec fn board_width(terminal_width: nat) -> nat {
    if terminal_width < 2 {
        1
    } else {
        (terminal_width - 1) as nat
    }
}

/// The columns of a panel on a board: a third, without what is between the panels.
pub open spec fn cell_columns(width: nat) -> nat {
    let cell = less(width, 4) / 3;
    if cell < 1 {
        1
    } else {
        cell
    }
}

/// The lines of a panel on a terminal: half of what the title and a blank line leave,
/// but 18 at least and 26 at most.
pub open spec fn panel_rows(terminal_height: nat) -> nat {
    let rows = less(terminal_height, 2) / 2;
    if rows < 18 {
        18
    } else if rows > 26 {
        26
    } else {
        rows
    }
}

/// The measures of a board.
#[derive(Clone, Copy, Debug, PartialEq, Eq, Structural)]
pub struct Layout {
    pub width: usize,
    pub cell_width: usize,
    pub panel_height: usize,
}

/// The measures of the board on a terminal.
pub fn layout(terminal_width: usize, height: usize) -> (layout: Layout)
    ensures
        layout.width == board_width(terminal_width as nat),
        layout.cell_width == cell_columns(layout.width as nat),
        layout.panel_height == panel_rows(height as nat),
{
    let width: usize = if terminal_width < 2 { 1 } else { terminal_width - 1 };
    let between: usize = GUTTER * 2;
    let mut cell_width: usize = (if width > between { width - between } else { 0 }) / 3;
    if cell_width < 1 {
        cell_width = 1;
    }
    let mut panel_height: usize = (if height > 2 { height - 2 } else { 0 }) / 2;
    if panel_height < 18 {
        panel_height = 18;
    }
    if panel_height > 26 {
        panel_height = 26;
    }
    Layout { width, cell_width, panel_height }
}

/// Three panels and the gaps between them fit on the board, unless it is too narrow for
/// a column each.
pub proof fn law_three_panels_fit(terminal_width: nat)
    requires
        board_width(terminal_width) >= 7,
    ensures
        3 * cell_columns(board_width(terminal_width)) + 2 * GUTTER <= board_width(terminal_width),
{
}

/// The lines of panels.
pub open spec fn panel_texts(panels: Seq<Vec<String>>) -> Seq<Seq<Seq<char>>> {
    panels.map_values(|lines: Vec<String>| texts(lines@))
}

/// What stands in a column of a line of the grid: the line of its panel, or blanks
/// where the row has no panel there.
pub open spec fn grid_cell(
    panels: Seq<Seq<Seq<char>>>,
    start: nat,
    count: nat,
    col: nat,
    line: int,
    cell_width: nat,
) -> Seq<char> {
    if col < count && start + col < panels.len() {
        let panel = panels[(start + col) as int];
        if line < panel.len() {
            panel[line]
        } else {
            Seq::empty()
        }
    } else {
        blanks(cell_width)
    }
}

/// A line of the grid, with the `count` panels from `start` on beside one another.
pub open spec fn grid_line(
    panels: Seq<Seq<Seq<char>>>,
    start: nat,
    count: nat,
    line: int,
    cell_width: nat,
) -> Seq<char> {
    grid_cell(panels, start, count, 0, line, cell_width) + blanks(2) + grid_cell(
        panels,
        start,
        count,
        1,
        line,
        cell_width,
    ) + blanks(2) + grid_cell(panels, start, count, 2, line, cell_width)
}

/// The lines of a row of the grid.
pub open spec fn row_lines(
    panels: Seq<Seq<Seq<char>>>,
    start: nat,
    count: nat,
    cell_width: nat,
    height: nat,
) -> Seq<Seq<char>> {
    Seq::new(height, |line: int| grid_line(panels, start, count, line, cell_width))
}

/// The text of `lines`, each with a line feed behind it.
pub open spec fn lined(lines: Seq<Seq<char>>) -> Seq<char>
    decreases lines.len(),
{
    if lines.len() == 0 {
        Seq::empty()
    } else {
        lined(lines.drop_last()) + lines.last() + "\n"@
    }
}

/// The text of lines is that of the first ones and that of the rest.
proof fn lemma_lined_concat(above: Seq<Seq<char>>, below: Seq<Seq<char>>)
    ensures
        lined(above + below) == lined(above) + lined(below),
    decreases below.len(),
{
    let all = above + below;
    if below.len() == 0 {
        assert(all =~= above);
        assert(lined(above) + lined(below) =~= lined(above));
    } else {
        lemma_lined_concat(above, below.drop_last());
        assert(all.drop_last() =~= above + below.drop_last());
        assert(lined(all) =~= lined(above) + lined(below));
    }
}

fn append_cell(
    out: &mut String,
    panels: &Vec<Vec<String>>,
    start: usize,
    count: usize,
    col: usize,
    line: usize,
    cell_width: usize,
)
    ensures
        final(out)@ == old(out)@ + grid_cell(
            panel_texts(panels@),
            start as nat,
            count as nat,
            col as nat,
            line as int,
            cell_width as nat,
        ),
{
    if col < count && col < panels.len() && start < panels.len() - col {
        let panel = &panels[start + col];
        assert(panel_texts(panels@)[start + col] == texts(panel@));
        if line < panel.len() {
            out.append(&panel[line]);
        }
        assert(line >= panel@.len() ==> old(out)@ + Seq::<char>::empty() =~= old(out)@);
    } else {
        out.append(&repeat_char(' ', cell_width));
    }
}

/// Adds a row of the grid, with the `count` panels from `start` on.
pub fn append_grid_row(
    out: &mut String,
    panels: &Vec<Vec<String>>,
    start: usize,
    count: usize,
    cell_width: usize,
    panel_height: usize,
)
    ensures
        final(out)@ == old(out)@ + lined(
            row_lines(
                panel_texts(panels@),
                start as nat,
                count as nat,
                cell_width as nat,
                panel_height as nat,
            ),
        ),
{
    let ghost cells = panel_texts(panels@);
    let ghost before = out@;
    let ghost all = row_lines(
        cells,
        start as nat,
        count as nat,
        cell_width as nat,
        panel_height as nat,
    );
    let mut line: usize = 0;
    assert(before + lined(all.take(0)) =~= before);
    while line < panel_height
        invariant
            line <= panel_height,
            cells == panel_texts(panels@),
            all == row_lines(
                cells,
                start as nat,
                count as nat,
                cell_width as nat,
                panel_height as nat,
            ),
            out@ == before + lined(all.take(line as int)),
        decreases panel_height - line,
    {
        let ghost above = out@;
        append_cell(out, panels, start, count, 0, line, cell_width);
        out.append(&repeat_char(' ', GUTTER));
        append_cell(out, panels, start, count, 1, line, cell_width);
        out.append(&repeat_char(' ', GUTTER));
        append_cell(out, panels, start, count, 2, line, cell_width);
        out.append("\n");
        assert(out@ =~= above + all[line as int] + "\n"@);
        line += 1;
        assert(all.take(line as int).drop_last() =~= all.take(line - 1));
        assert(out@ =~= before + lined(all.take(line as int)));
    }
    assert(all.take(line as int) =~= all);
}

/// The row of the grid in which a panel stands: three panels in the first, two in the
/// second, three in each row below.
pub open spec fn row_of(index: nat) -> nat {
    if index < 3 {
        0
    } else if index < 5 {
        1
    } else {
        2 + (index - 5) as nat / 3
    }
}

/// The place of a panel in its row.
pub open spec fn col_of(index: nat) -> nat {
    if index < 3 {
        index
    } else if index < 5 {
        (index - 3) as nat
    } else {
        (index - 5) as nat % 3
    }
}

/// The first panel of a row.
pub open spec fn row_start(row: nat) -> nat {
    if row == 0 {
        0
    } else if row == 1 {
        3
    } else {
        (5 + 3 * (row - 2)) as nat
    }
}

/// The panels of a row.
pub open spec fn row_count(row: nat) -> nat {
    if row == 1 {
        2
    } else {
        3
    }
}

/// The rows of a grid: two, and as many more as the panels need.
pub open spec fn rows_for(count: nat) -> nat {
    if count <= 5 {
        2
    } else {
        row_of((count - 1) as nat) + 1
    }
}

/// The lines of the first `rows` rows of the grid, with an empty line between two rows.
pub open spec fn grid_lines(
    panels: Seq<Seq<Seq<char>>>,
    cell_width: nat,
    height: nat,
    rows: nat,
) -> Seq<Seq<char>>
    decreases rows,
{
    if rows == 0 {
        Seq::empty()
    } else {
        let row = (rows - 1) as nat;
        let above = grid_lines(panels, cell_width, height, row);
        let last = row_lines(panels, row_start(row), row_count(row), cell_width, height);
        if row == 0 {
            last
        } else {
            above + seq![Seq::empty()] + last
        }
    }
}

/// The grid: three panels above two, and rows of three below them where there are more.
pub open spec fn grid(panels: Seq<Seq<Seq<char>>>, cell_width: nat, height: nat) -> Seq<char> {
    lined(grid_lines(panels, cell_width, height, rows_for(panels.len())))
}

/// One more row stands below an empty line.
proof fn lemma_next_row(
    panels: Seq<Seq<Seq<char>>>,
    cell_width: nat,
    height: nat,
    row: nat,
)
    requires
        row > 0,
    ensures
        lined(grid_lines(panels, cell_width, height, row + 1)) == lined(
            grid_lines(panels, cell_width, height, row),
        ) + "\n"@ + lined(
            row_lines(panels, row_start(row), row_count(row), cell_width, height),
        ),
{
    let above = grid_lines(panels, cell_width, height, row);
    let gap = seq![Seq::<char>::empty()];
    let last = row_lines(panels, row_start(row), row_count(row), cell_width, height);
    lemma_lined_concat(above, gap);
    lemma_lined_concat(above + gap, last);
    assert(gap.drop_last() =~= Seq::<Seq<char>>::empty());
    assert(lined(gap.drop_last()) == Seq::<char>::empty());
    assert(lined(gap) =~= "\n"@);
}

fn draw_grid(panels: &Vec<Vec<String>>, cell_width: usize, panel_height: usize) -> (out: String)
    ensures
        out@ == grid(panel_texts(panels@), cell_width as nat, panel_height as nat),
{
    let ghost cells = panel_texts(panels@);
    let count = panels.len();
    let rows: usize = if count <= 5 { 2 } else { 3 + (count - 6) / 3 };
    let mut out = String::new();
    append_grid_row(&mut out, panels, 0, 3, cell_width, panel_height);
    assert(out@ =~= lined(grid_lines(cells, cell_width as nat, panel_height as nat, 1)));
    out.append("\n");
    append_grid_row(&mut out, panels, 3, 2, cell_width, panel_height);
    proof {
        lemma_next_row(cells, cell_width as nat, panel_height as nat, 1);
    }
    let mut row: usize = 2;
    while row < rows
        invariant
            cells == panel_texts(panels@),
            count == panels@.len(),
            rows == rows_for(count as nat),
            2 <= row <= rows,
            out@ == lined(grid_lines(cells, cell_width as nat, panel_height as nat, row as nat)),
        decreases rows - row,
    {
        let start: usize = 5 + 3 * (row - 2);
        out.append("\n");
        append_grid_row(&mut out, panels, start, 3, cell_width, panel_height);
        proof {
            lemma_next_row(cells, cell_width as nat, panel_height as nat, row as nat);
        }
        row += 1;
    }
    out
}

/// Where the lines of a row stand among those of the grid.
proof fn lemma_row_in_grid(
    panels: Seq<Seq<Seq<char>>>,
    cell_width: nat,
    height: nat,
    rows: nat,
    row: nat,
    line: nat,
)
    requires
        row < rows,
        line < height,
    ensures
        grid_lines(panels, cell_width, height, rows).len() == rows * (height + 1) - 1,
        row * (height + 1) + line < grid_lines(panels, cell_width, height, rows).len(),
        grid_lines(panels, cell_width, height, rows)[(row * (height + 1) + line) as int]
            == row_lines(
            panels,
            row_start(row),
            row_count(row),
            cell_width,
            height,
        )[line as int],
    decreases rows,
{
    let last = (rows - 1) as nat;
    assert(rows * (height + 1) == last * (height + 1) + height + 1) by (nonlinear_arith)
        requires
            rows == last + 1,
    ;
    assert((row + 1) * (height + 1) <= rows * (height + 1)) by (nonlinear_arith)
        requires
            row + 1 <= rows,
    ;
    assert((row + 1) * (height + 1) == row * (height + 1) + height + 1) by (nonlinear_arith);
    if last == 0 {
        assert(row == 0);
        assert(row * (height + 1) == 0) by (nonlinear_arith)
            requires
                row == 0,
        ;
    } else {
        let inner = if row < last {
            row
        } else {
            0
        };
        lemma_row_in_grid(panels, cell_width, height, last, inner, line);
        if row < last {
            assert((row + 1) * (height + 1) <= last * (height + 1)) by (nonlinear_arith)
                requires
                    row + 1 <= last,
            ;
        }
    }
}

/// What stands to the left of a place in a line of the grid.
pub open spec fn left_of(
    panels: Seq<Seq<Seq<char>>>,
    row: nat,
    col: nat,
    line: int,
    cell_width: nat,
) -> Seq<char>
    decreases col,
{
    if col == 0 {
        Seq::empty()
    } else {
        left_of(panels, row, (col - 1) as nat, line, cell_width) + grid_cell(
            panels,
            row_start(row),
            row_count(row),
            (col - 1) as nat,
            line,
            cell_width,
        ) + blanks(2)
    }
}

proof fn lemma_cell_in_line(
    panels: Seq<Seq<Seq<char>>>,
    row: nat,
    col: nat,
    line: int,
    cell_width: nat,
)
    requires
        col < 3,
    ensures
        (left_of(panels, row, col, line, cell_width) + grid_cell(
            panels,
            row_start(row),
            row_count(row),
            col,
            line,
            cell_width,
        )).is_prefix_of(grid_line(panels, row_start(row), row_count(row), line, cell_width)),
{
    reveal_with_fuel(left_of, 4);
    let whole = grid_line(panels, row_start(row), row_count(row), line, cell_width);
    let start = left_of(panels, row, col, line, cell_width) + grid_cell(
        panels,
        row_start(row),
        row_count(row),
        col,
        line,
        cell_width,
    );
    assert(start =~= whole.take(start.len() as int));
}

/// The line with the title of the board.
pub open spec fn title_line(
    styled: bool,
    competition: Competition,
    date: Seq<char>,
    now: Seq<char>,
    seconds: nat,
) -> Seq<char> {
    in_bold(styled, competition.title()) + " "@ + in_dim(
        styled,
        "· "@ + date + " · "@ + now + " KST · refresh "@ + decimal(seconds)
            + "s · q:종료 r:새로고침"@,
    )
}

fn draw_title(
    styled: bool,
    competition: Competition,
    date: &str,
    now: &str,
    seconds: u64,
) -> (line: String)
    ensures
        line@ == title_line(styled, competition, date@, now@, seconds as nat),
{
    let details = "· ".to_owned().concat(date).concat(" · ").concat(now).concat(
        " KST · refresh ",
    ).concat(&write_decimal(seconds)).concat("s · q:종료 r:새로고침");
    bold(styled, competition.header()).concat(" ").concat(&dim(styled, &details))
}

/// The panels of games, each with the time of day at which it is drawn.
pub open spec fn panels_of(
    styled: bool,
    competition: Competition,
    cards: Seq<GameCard>,
    clock: Seq<String>,
    cell_width: nat,
    height: nat,
) -> Seq<Seq<Seq<char>>> {
    Seq::new(
        cards.len(),
        |i: int|
            panel(styled, cards[i], competition, cards.len(), cell_width, height, clock[i]@),
    )
}

#[verifier::spinoff_prover]
#[verifier::rlimit(40)]
fn draw_panels(
    styled: bool,
    competition: Competition,
    cards: &Vec<GameCard>,
    clock: &Vec<String>,
    cell_width: usize,
    panel_height: usize,
) -> (panels: Vec<Vec<String>>)
    requires
        clock@.len() == cards@.len(),
        forall|i: int| 0 <= i < cards@.len() ==> (#[trigger] cards@[i]).index < usize::MAX,
    ensures
        panel_texts(panels@) == panels_of(
            styled,
            competition,
            cards@,
            clock@,
            cell_width as nat,
            panel_height as nat,
        ),
{
    let mut panels: Vec<Vec<String>> = Vec::new();
    let ghost all = panels_of(
        styled,
        competition,
        cards@,
        clock@,
        cell_width as nat,
        panel_height as nat,
    );
    let mut i: usize = 0;
    assert(panel_texts(panels@) =~= all.take(0));
    while i < cards.len()
        invariant
            i <= cards@.len(),
            clock@.len() == cards@.len(),
            forall|i: int| 0 <= i < cards@.len() ==> (#[trigger] cards@[i]).index < usize::MAX,
            all == panels_of(
                styled,
                competition,
                cards@,
                clock@,
                cell_width as nat,
                panel_height as nat,
            ),
            panel_texts(panels@) == all.take(i as int),
        decreases cards@.len() - i,
    {
        let ghost before = panels@;
        let lines = render_panel(
            styled,
            &cards[i],
            competition,
            cards.len(),
            cell_width,
            panel_height,
            &clock[i],
        );
        let ghost drawn = texts(lines@);
        panels.push(lines);
        assert(panel_texts(panels@) =~= panel_texts(before).push(drawn));
        assert(drawn == all[i as int]);
        i += 1;
        assert(panel_texts(panels@) =~= all.take(i as int));
    }
    assert(all.take(i as int) =~= all);
    panels
}

/// What is drawn below the title of the board.
pub open spec fn board_body(
    styled: bool,
    competition: Competition,
    cards: Seq<GameCard>,
    clock: Seq<String>,
    cell_width: nat,
    height: nat,
) -> Seq<char> {
    if cards.len() == 0 {
        competition.no_games() + "\n"@
    } else {
        grid(panels_of(styled, competition, cards, clock, cell_width, height), cell_width, height)
    }
}

fn draw_body(
    styled: bool,
    competition: Competition,
    cards: &Vec<GameCard>,
    clock: &Vec<String>,
    cell_width: usize,
    panel_height: usize,
) -> (body: String)
    requires
        clock@.len() == cards@.len(),
        forall|i: int| 0 <= i < cards@.len() ==> (#[trigger] cards@[i]).index < usize::MAX,
    ensures
        body@ == board_body(
            styled,
            competition,
            cards@,
            clock@,
            cell_width as nat,
            panel_height as nat,
        ),
{
    if cards.len() == 0 {
        return competition.empty_message().to_owned().concat("\n");
    }
    let panels = draw_panels(styled, competition, cards, clock, cell_width, panel_height);
    draw_grid(&panels, cell_width, panel_height)
}

/// Every game is on the board: each line of its panel stands in the line and at the place
/// of the grid that belong to it.
pub proof fn law_every_game_is_shown(
    styled: bool,
    competition: Competition,
    cards: Seq<GameCard>,
    clock: Seq<String>,
    cell_width: nat,
    height: nat,
    index: nat,
    line: nat,
)
    requires
        index < cards.len(),
        line < height,
    ensures
        ({
            let panels = panels_of(styled, competition, cards, clock, cell_width, height);
            let lines = grid_lines(panels, cell_width, height, rows_for(cards.len()));
            let at = row_of(index) * (height + 1) + line;
            let left = left_of(panels, row_of(index), col_of(index), line as int, cell_width);
            let shown = panel(
                styled,
                cards[index as int],
                competition,
                cards.len(),
                cell_width,
                height,
                clock[index as int]@,
            )[line as int];
            &&& board_body(styled, competition, cards, clock, cell_width, height) == lined(lines)
            &&& at < lines.len()
            &&& (left + shown).is_prefix_of(lines[at as int])
        }),
{
    let panels = panels_of(styled, competition, cards, clock, cell_width, height);
    law_panel_height(
        styled,
        cards[index as int],
        competition,
        cards.len(),
        cell_width,
        height,
        clock[index as int]@,
    );
    lemma_row_in_grid(
        panels,
        cell_width,
        height,
        rows_for(cards.len()),
        row_of(index),
        line,
    );
    lemma_cell_in_line(panels, row_of(index), col_of(index), line as int, cell_width);
}

/// What clears the screen of something that is not a terminal.
pub open spec fn clearing(is_terminal: bool) -> Seq<char> {
    if is_terminal {
        Seq::empty()
    } else {
        "\x1b[2J\x1b[H"@
    }
}

/// Draws the board for a terminal of the size `terminal`. `now` is the time of day in
/// its title, and `clock` holds the one in the foot of each panel.
#[verifier::spinoff_prover]
#[verifier::rlimit(40)]
pub fn render(
    styled: bool,
    is_terminal: bool,
    competition: Competition,
    date: &str,
    interval_seconds: u64,
    cards: &Vec<GameCard>,
    terminal: (usize, usize),
    now: &str,
    clock: &Vec<String>,
) -> (out: String)
    requires
        clock@.len() == cards@.len(),
        forall|i: int| 0 <= i < cards@.len() ==> (#[trigger] cards@[i]).index < usize::MAX,
    ensures
        out@ == clearing(is_terminal) + fitted(
            title_line(styled, competition, date@, now@, interval_seconds as nat),
            board_width(terminal.0 as nat),
        ) + "\n"@ + board_body(
            styled,
            competition,
            cards@,
            clock@,
            cell_columns(board_width(terminal.0 as nat)),
            panel_rows(terminal.1 as nat),
        ),
{
    let Layout { width, cell_width, panel_height } = layout(terminal.0, terminal.1);
    let mut out = String::new();
    if !is_terminal {
        out.append("\x1b[2J\x1b[H");
    }
    assert(out@ =~= clearing(is_terminal));
    let title = draw_title(styled, competition, date, now, interval_seconds);
    let body = draw_body(styled, competition, cards, clock, cell_width, panel_height);
    out.concat(&fit(&title, width)).concat("\n").concat(&body)
}

/// `text` with a return before each line feed.
pub open spec fn with_returns(text: Seq<char>) -> Seq<char>
    decreases text.len(),
{
    if text.len() == 0 {
        Seq::empty()
    } else if text.last() == '\n' {
        with_returns(text.drop_last()).push('\r').push('\n')
    } else {
        with_returns(text.drop_last()).push(text.last())
    }
}

/// The text to write for a board: a terminal in raw mode needs a return before each
/// line feed.
pub fn screen_text(is_terminal: bool, out: String) -> (text: String)
    ensures
        text@ == (if is_terminal {
            with_returns(out@)
        } else {
            out@
        }),
{
    if !is_terminal {
        return out;
    }
    let chars = chars_of(&out);
    let mut text = String::new();
    let mut i: usize = 0;
    while i < chars.len()
        invariant
            i <= chars@.len(),
            chars@ == out@,
            text@ == with_returns(out@.take(i as int)),
        decreases chars@.len() - i,
    {
        assert(out@.take(i + 1).drop_last() == out@.take(i as int));
        if chars[i] == '\n' {
            text.push('\r');
        }
        text.push(chars[i]);
        i += 1;
    }
    assert(out@.take(i as int) == out@);
    text
}

/// On a terminal every line feed follows a return.
pub proof fn law_feeds_follow_returns(text: Seq<char>)
    ensures
        forall|i: int|
            0 <= i < with_returns(text).len() && #[trigger] with_returns(text)[i] == '\n' ==> i > 0
                && with_returns(text)[i - 1] == '\r',
    decreases text.len(),
{
    if text.len() > 0 {
        law_feeds_follow_returns(text.drop_last());
        let before = with_returns(text.drop_last());
        let all = with_returns(text);
        assert forall|i: int| 0 <= i < all.len() && #[trigger] all[i] == '\n' implies i > 0 && all[i
            - 1] == '\r' by {
            if i < before.len() {
                assert(all[i] == before[i]);
                assert(before[i - 1] == '\r');
            }
        }
    }
}

/// The board takes all columns of a terminal but one. Its panels are as wide as three of them
/// and the gaps allow, and as high as two of them below the title and a blank line allow,
/// within 18 and 26 lines.
pub proof fn law_panels_use_the_terminal(terminal_width: nat, terminal_height: nat)
    ensures
        ({
            let width = board_width(terminal_width);
            let cell = cell_columns(width);
            let rows = panel_rows(terminal_height);
            &&& terminal_width >= 2 ==> width == terminal_width - 1
            &&& terminal_width < 2 ==> width == 1
            &&& cell >= 1
            &&& 3 * (cell + 1) + 4 > width
            &&& cell > 1 ==> 3 * cell + 4 <= width
            &&& 18 <= rows <= 26
            &&& rows > 18 ==> 2 * rows + 2 <= terminal_height
            &&& rows < 26 ==> 2 * (rows + 1) + 2 > terminal_height
        }),
{
}

/// A variable of the environment gives the count that it writes in decimal; without it, or
/// where it writes none, the usual one is taken.
pub proof fn law_variables_give_counts(variable: Option<String>, count: nat, other: nat)
    requires
        count <= usize::MAX,
    ensures
        variable is None ==> variable_or(variable, other) == other,
        variable is Some && variable->0@ == decimal(count) ==> variable_or(variable, other)
            == count,
        variable is Some && variable->0@.len() == 0 ==> variable_or(variable, other) == other,
        variable is Some && (exists|i: int|
            0 < i < variable->0@.len() && !('0' <= #[trigger] variable->0@[i] <= '9'))
            ==> variable_or(variable, other) == other,
{
    if variable is Some {
        law_numbers_are_digits(variable->0@, count, usize::MAX as nat);
    }
}

/// A grid has three places in its first row, two in its second and three in each further one,
/// filled in order, so no two panels share a place.
pub proof fn law_places_of_panels(index: nat, other: nat)
    ensures
        index < 3 ==> row_of(index) == 0 && col_of(index) == index,
        3 <= index < 5 ==> row_of(index) == 1 && col_of(index) == index - 3,
        5 <= index < 8 ==> row_of(index) == 2 && col_of(index) == index - 5,
        index >= 5 ==> row_of(index + 3) == row_of(index) + 1 && col_of(index + 3) == col_of(index),
        col_of(index) < 3,
        row_of(index) == 1 ==> col_of(index) < 2,
        index < other ==> row_of(index) < row_of(other) || (row_of(index) == row_of(other)
            && col_of(index) < col_of(other)),
{
}

/// On a terminal the text stays as it is between line feeds, and each line feed gets a return
/// before it.
pub proof fn law_returns_are_all_that_is_added(before: Seq<char>, after: Seq<char>)
    ensures
        !before.contains('\n') ==> with_returns(before) == before,
        with_returns(before + seq!['\n'] + after) == with_returns(before) + seq!['\r', '\n']
            + with_returns(after),
    decreases after.len(), before.len(),
{
    if !before.contains('\n') && before.len() > 0 {
        let rest = before.drop_last();
        assert(before.contains(before[before.len() - 1]));
        assert(!rest.contains('\n')) by {
            if rest.contains('\n') {
                let i = choose|i: int| 0 <= i < rest.len() && rest[i] == '\n';
                assert(before[i] == '\n');
            }
        }
        lemma_no_feeds(rest);
        assert(rest.push(before.last()) =~= before);
    }
    let whole = before + seq!['\n'] + after;
    if after.len() == 0 {
        assert(whole.drop_last() =~= before);
        assert(with_returns(whole) =~= with_returns(before) + seq!['\r', '\n'] + with_returns(
            after,
        ));
    } else {
        law_returns_are_all_that_is_added(before, after.drop_last());
        assert(whole.drop_last() =~= before + seq!['\n'] + after.drop_last());
        assert(with_returns(whole) =~= with_returns(before) + seq!['\r', '\n'] + with_returns(
            after,
        ));
    }
}

proof fn lemma_no_feeds(text: Seq<char>)
    requires
        !text.contains('\n'),
    ensures
        with_returns(text) == text,
    decreases text.len(),
{
    if text.len() > 0 {
        let rest = text.drop_last();
        assert(text.contains(text[text.len() - 1]));
        assert(!rest.contains('\n')) by {
            if rest.contains('\n') {
                let i = choose|i: int| 0 <= i < rest.len() && rest[i] == '\n';
                assert(text[i] == '\n');
            }
        }
        lemma_no_feeds(rest);
        assert(rest.push(text.last()) =~= text);
    }
}

/// A board without games says so below its title, and only a screen that is no terminal is
/// cleared by what is written.
pub proof fn law_empty_board(
    styled: bool,
    competition: Competition,
    clock: Seq<String>,
    cell_width: nat,
    height: nat,
)
    ensures
        board_body(styled, competition, Seq::empty(), clock, cell_width, height) == (
        match competition {
            Competition::Kbo => "오늘 KBO 경기가 없습니다."@,
            Competition::AsianGames => "오늘 아시안게임 야구 경기가 없습니다."@,
        }) + seq!['\n'],
        clearing(true) == Seq::<char>::empty(),
        clearing(false) == seq!['\x1b', '[', '2', 'J', '\x1b', '[', 'H'],
{
    reveal_strlit("\n");
    reveal_strlit("\x1b[2J\x1b[H");
    assert("\n"@ =~= seq!['\n']);
    assert(clearing(false) =~= seq!['\x1b', '[', '2', 'J', '\x1b', '[', 'H']);
}

/// A place of the grid without a panel is blank, and two places stand a gap of two blanks
/// apart.
pub proof fn law_free_places_are_blank(
    panels: Seq<Seq<Seq<char>>>,
    row: nat,
    col: nat,
    line: int,
    cell_width: nat,
)
    ensures
        col >= (if row == 1 {
            2
        } else {
            3nat
        }) || row_start(row) + col >= panels.len() ==> grid_cell(
            panels,
            row_start(row),
            row_count(row),
            col,
            line,
            cell_width,
        ) == blanks(cell_width),
        grid_line(panels, row_start(row), row_count(row), line, cell_width) == grid_cell(
            panels,
            row_start(row),
            row_count(row),
            0,
            line,
            cell_width,
        ) + seq![' ', ' '] + grid_cell(
            panels,
            row_start(row),
            row_count(row),
            1,
            line,
            cell_width,
        ) + seq![' ', ' '] + grid_cell(
            panels,
            row_start(row),
            row_count(row),
            2,
            line,
            cell_width,
        ),
        row > 0 ==> row_start(row) == row_start((row - 1) as nat) + row_count((row - 1) as nat),
        row_start(0) == 0,
{
    assert(blanks(2) =~= seq![' ', ' ']);
}

/// The rows of a grid are two, and more only where the panels need them: the last row then
/// has a panel, and none is left over.
pub proof fn law_rows_are_enough(count: nat)
    ensures
        rows_for(count) >= 2,
        row_start(rows_for(count)) >= count,
        rows_for(count) > 2 ==> row_start((rows_for(count) - 1) as nat) < count,
{
}

/// Lines are written one below the other, each with a line feed behind it.
pub proof fn law_lines_end_in_feeds(lines: Seq<Seq<char>>, next: Seq<char>)
    ensures
        lined(Seq::empty()) == Seq::<char>::empty(),
        lined(lines.push(next)) == lined(lines) + next + seq!['\n'],
{
    reveal_strlit("\n");
    assert("\n"@ =~= seq!['\n']);
    assert(lines.push(next).drop_last() =~= lines);
}

/// Each row of a grid has as many lines as its panels, and an empty line stands between two
/// rows.
pub proof fn law_rows_are_apart(
    panels: Seq<Seq<Seq<char>>>,
    cell_width: nat,
    height: nat,
    rows: nat,
    row: nat,
)
    requires
        0 < row < rows,
    ensures
        grid_lines(panels, cell_width, height, rows).len() == rows * (height + 1) - 1,
        grid_lines(panels, cell_width, height, rows)[row * (height + 1) - 1].len() == 0,
    decreases rows,
{
    let last = (rows - 1) as nat;
    assert(rows * (height + 1) == last * (height + 1) + height + 1) by (nonlinear_arith)
        requires
            rows == last + 1,
    ;
    lemma_grid_length(panels, cell_width, height, last);
    if row < last {
        law_rows_are_apart(panels, cell_width, height, last, row);
        assert(row * (height + 1) <= last * (height + 1)) by (nonlinear_arith)
            requires
                row <= last,
        ;
        assert(row * (height + 1) >= 1) by (nonlinear_arith)
            requires
                row >= 1,
        ;
        assert((row + 1) * (height + 1) <= last * (height + 1)) by (nonlinear_arith)
            requires
                row + 1 <= last,
        ;
        assert((row + 1) * (height + 1) == row * (height + 1) + height + 1) by (nonlinear_arith);
    }
}

proof fn lemma_grid_length(panels: Seq<Seq<Seq<char>>>, cell_width: nat, height: nat, rows: nat)
    requires
        rows > 0,
    ensures
        grid_lines(panels, cell_width, height, rows).len() == rows * (height + 1) - 1,
    decreases rows,
{
    let last = (rows - 1) as nat;
    assert(rows * (height + 1) == last * (height + 1) + height + 1) by (nonlinear_arith)
        requires
            rows == last + 1,
    ;
    if last > 0 {
        lemma_grid_length(panels, cell_width, height, last);
    } else {
        assert(last * (height + 1) == 0) by (nonlinear_arith)
            requires
                last == 0,
        ;
    }
}

} // verus!
