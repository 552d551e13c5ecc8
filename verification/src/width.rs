//! Columns on a terminal: escape sequences take none, every other character as
//! many as Unicode gives it.
use unicode_width::{UnicodeWidthChar, UnicodeWidthStr};
use vstd::prelude::*;

use crate::text::{chars_of, display_line, repeat_char};
#[allow(unused_imports)]
use crate::text::{
    blanks, displayed, is_one_line, is_white, law_displayed_is_one_line, on_one_line, repeated,
    trimmed_end,
};

verus! {

/// The character that starts an escape sequence.
pub const ESCAPE: char = '\x1b';

/// The escape sequence that ends all styles.
pub const RESET: &'static str = "\x1b[0m";

/// The columns that `UnicodeWidthChar::width` gives a character.
pub uninterp spec fn unicode_char_width(c: char) -> Option<usize>;

/// The columns that `UnicodeWidthStr::width` gives a text.
pub uninterp spec fn unicode_str_width(text: Seq<char>) -> nat;

/// Whether `c` is a control character.
pub open spec fn is_control(c: char) -> bool {
    c < ' ' || '\u{7f}' <= c < '\u{a0}'
}

/// Whether `c` is one of the marks that the board is drawn with.
pub open spec fn is_mark(c: char) -> bool {
    ||| c == '·'
    ||| c == '…'
    ||| c == '⌂'
    ||| '─' <= c <= '╿'
    ||| c == '▸'
    ||| c == '◀'
    ||| c == '◆'
    ||| c == '◇'
    ||| c == '○'
    ||| c == '●'
}

/// The columns of the characters that nothing beside them of their kind changes:
/// printable ASCII and the marks of the board take one, the syllables of Hangul two.
pub open spec fn plain_columns(c: char) -> Option<nat> {
    if ' ' <= c <= '~' || is_mark(c) {
        Some(1)
    } else if '가' <= c <= '힣' {
        Some(2)
    } else {
        None
    }
}

/// Whether `text` holds only characters that `plain_columns` knows.
pub open spec fn is_plain(text: Seq<char>) -> bool {
    forall|i: int| 0 <= i < text.len() ==> plain_columns(#[trigger] text[i]) is Some
}

/// The columns of all characters of a plain text together.
pub open spec fn plain_width(text: Seq<char>) -> nat
    decreases text.len(),
{
    if text.len() == 0 {
        0
    } else {
        plain_width(text.drop_last()) + plain_columns(text.last()).unwrap_or(0)
    }
}

/// Whether a plain text keeps its columns in front of `text`: one of them is empty, or a
/// blank stands between them, or `text` is plain as well.
pub open spec fn apart(before: Seq<char>, text: Seq<char>) -> bool {
    ||| before.len() == 0
    ||| text.len() == 0
    ||| before.last() == ' '
    ||| text[0] == ' '
    ||| is_plain(text)
}

/// `UnicodeWidthChar::width` of the crate `unicode-width`: the columns of `c`. It has
/// none exactly where `c` is a control character; plain characters take what
/// `plain_columns` says.
#[verifier::external_body]
fn char_columns(c: char) -> (columns: Option<usize>)
    ensures
        columns == unicode_char_width(c),
        columns is None <==> is_control(c),
        plain_columns(c) is Some ==> columns == Some(plain_columns(c)->0 as usize),
{
    UnicodeWidthChar::width(c)
}

/// `UnicodeWidthStr::width` of the crate `unicode-width`: the columns of `text`. A plain
/// text takes those of its characters, alone and behind any `text`, and also in front of
/// one that is `apart` from it.
#[verifier::external_body]
fn text_columns(text: &str) -> (columns: usize)
    ensures
        columns == unicode_str_width(text@),
        forall|before: Seq<char>, after: Seq<char>|
            is_plain(before) && apart(before, text@) && is_plain(after)
                ==> #[trigger] unicode_str_width(before + text@ + after) == plain_width(before)
                + columns + plain_width(after),
        is_plain(text@) ==> columns == plain_width(text@),
{
    UnicodeWidthStr::width(text)
}

/// Whether plain texts beside `text` add their columns to its own.
pub open spec fn adds_up(text: Seq<char>) -> bool {
    forall|before: Seq<char>, after: Seq<char>|
        is_plain(before) && apart(before, text) && is_plain(after)
            ==> #[trigger] unicode_str_width(before + text + after) == plain_width(before)
            + unicode_str_width(text) + plain_width(after)
}

/// Two texts one behind the other are plain where both are, and take the columns of both.
pub proof fn lemma_plain_concat(left: Seq<char>, right: Seq<char>)
    ensures
        is_plain(left + right) == (is_plain(left) && is_plain(right)),
        plain_width(left + right) == plain_width(left) + plain_width(right),
    decreases right.len(),
{
    let both = left + right;
    if right.len() == 0 {
        assert(both =~= left);
    } else {
        lemma_plain_concat(left, right.drop_last());
        assert(both.drop_last() =~= left + right.drop_last());
    }
    if is_plain(both) {
        assert forall|i: int| 0 <= i < left.len() implies plain_columns(
            #[trigger] left[i],
        ) is Some by {
            assert(both[i] == left[i]);
        }
        assert forall|i: int| 0 <= i < right.len() implies plain_columns(
            #[trigger] right[i],
        ) is Some by {
            assert(both[left.len() + i] == right[i]);
        }
    }
}

/// Copies of a character of one column take as many columns as they are.
pub proof fn lemma_plain_repeated(c: char, count: nat)
    requires
        plain_columns(c) == Some(1nat),
    ensures
        is_plain(repeated(c, count)),
        plain_width(repeated(c, count)) == count,
    decreases count,
{
    if count > 0 {
        lemma_plain_repeated(c, (count - 1) as nat);
        assert(repeated(c, count).drop_last() =~= repeated(c, (count - 1) as nat));
    }
}

/// With blanks behind it, a text still adds up.
proof fn lemma_adds_up_with_blanks(text: Seq<char>, count: nat)
    requires
        adds_up(text),
    ensures
        adds_up(text + blanks(count)),
        unicode_str_width(text + blanks(count)) == unicode_str_width(text) + count,
        is_plain(text) ==> is_plain(text + blanks(count)) && plain_width(text + blanks(count))
            == plain_width(text) + count,
{
    let none = Seq::<char>::empty();
    let spaces = blanks(count);
    let full = text + spaces;
    lemma_plain_repeated(' ', count);
    lemma_plain_concat(text, spaces);
    assert(none + text + spaces =~= full);
    assert(unicode_str_width(none + text + spaces) == unicode_str_width(text) + count);
    assert forall|before: Seq<char>, after: Seq<char>|
        is_plain(before) && apart(before, full) && is_plain(after) implies
        #[trigger] unicode_str_width(before + full + after) == plain_width(before)
        + unicode_str_width(full) + plain_width(after) by {
        lemma_plain_concat(spaces, after);
        assert(before + full + after =~= before + text + (spaces + after));
        assert(apart(before, text)) by {
            if text.len() > 0 {
                assert(full[0] == text[0]);
            }
        }
        assert(unicode_str_width(before + text + (spaces + after)) == plain_width(before)
            + unicode_str_width(text) + plain_width(spaces + after));
    }
}

/// Whether an escape sequence is still open behind `text`, which starts inside one
/// or not. A sequence ends with the first `m`.
pub open spec fn inside_after(text: Seq<char>, inside: bool) -> bool
    decreases text.len(),
{
    if text.len() == 0 {
        inside
    } else {
        inside_after(
            text.skip(1),
            if inside {
                text[0] != 'm'
            } else {
                text[0] == ESCAPE
            },
        )
    }
}

/// Whether every escape sequence of `text` ends in it.
pub open spec fn closed(text: Seq<char>) -> bool {
    !inside_after(text, false)
}

/// The characters of `text` outside escape sequences, where `text` starts inside one
/// or not.
pub open spec fn shown(text: Seq<char>, inside: bool) -> Seq<char>
    decreases text.len(),
{
    if text.len() == 0 {
        Seq::empty()
    } else if inside {
        shown(text.skip(1), text[0] != 'm')
    } else if text[0] == ESCAPE {
        shown(text.skip(1), true)
    } else {
        seq![text[0]] + shown(text.skip(1), false)
    }
}

/// What a terminal shows of `text`.
pub open spec fn visible(text: Seq<char>) -> Seq<char> {
    shown(text, false)
}

/// The columns that `text` takes on a terminal.
pub open spec fn columns(text: Seq<char>) -> nat {
    unicode_str_width(visible(text))
}

/// Two texts one behind the other show what each of them shows.
pub proof fn lemma_shown_concat(left: Seq<char>, right: Seq<char>, inside: bool)
    ensures
        shown(left + right, inside) == shown(left, inside) + shown(
            right,
            inside_after(left, inside),
        ),
        inside_after(left + right, inside) == inside_after(right, inside_after(left, inside)),
    decreases left.len(),
{
    if left.len() == 0 {
        assert(left + right == right);
    } else {
        let next = if inside {
            left[0] != 'm'
        } else {
            left[0] == ESCAPE
        };
        assert((left + right).skip(1) == left.skip(1) + right);
        lemma_shown_concat(left.skip(1), right, next);
        assert(shown(left + right, inside) =~= shown(left, inside) + shown(
            right,
            inside_after(left, inside),
        ));
    }
}

/// A text without an escape character shows itself.
pub proof fn lemma_shown_unescaped(text: Seq<char>)
    requires
        !text.contains(ESCAPE),
    ensures
        visible(text) == text,
        closed(text),
    decreases text.len(),
{
    if text.len() > 0 {
        assert(text[0] != ESCAPE) by {
            assert(text.contains(text[0]));
        }
        assert(!text.skip(1).contains(ESCAPE)) by {
            if text.skip(1).contains(ESCAPE) {
                let i = choose|i: int| 0 <= i < text.skip(1).len() && text.skip(1)[i] == ESCAPE;
                assert(text[i + 1] == ESCAPE);
            }
        }
        lemma_shown_unescaped(text.skip(1));
        assert(visible(text) =~= text);
    }
}

/// Blanks show themselves.
proof fn lemma_blanks_shown(count: nat)
    ensures
        visible(blanks(count)) == blanks(count),
        closed(blanks(count)),
{
    assert(!blanks(count).contains(ESCAPE));
    lemma_shown_unescaped(blanks(count));
}

/// The sequence that ends all styles shows nothing.
proof fn lemma_reset_shown()
    ensures
        visible(RESET@) == Seq::<char>::empty(),
        closed(RESET@),
        shown(RESET@, true) == Seq::<char>::empty(),
        !inside_after(RESET@, true),
{
    reveal_strlit("\x1b[0m");
    assert(RESET@ =~= seq![ESCAPE] + seq!['[', '0'] + seq!['m']);
    lemma_sequence_shown(seq!['[', '0']);
}

/// An escape sequence without an `m` before its end shows nothing and ends, and so does
/// one that is open before it.
pub proof fn lemma_sequence_shown(body: Seq<char>)
    requires
        !body.contains('m'),
    ensures
        visible(seq![ESCAPE] + body + seq!['m']) == Seq::<char>::empty(),
        closed(seq![ESCAPE] + body + seq!['m']),
        shown(seq![ESCAPE] + body + seq!['m'], true) == Seq::<char>::empty(),
        !inside_after(seq![ESCAPE] + body + seq!['m'], true),
{
    let sequence = seq![ESCAPE] + body + seq!['m'];
    assert(sequence.skip(1) == body + seq!['m']);
    lemma_body_shown(body);
}

proof fn lemma_body_shown(body: Seq<char>)
    requires
        !body.contains('m'),
    ensures
        shown(body + seq!['m'], true) == Seq::<char>::empty(),
        !inside_after(body + seq!['m'], true),
    decreases body.len(),
{
    let whole = body + seq!['m'];
    if body.len() == 0 {
        assert(whole == seq!['m']);
        assert(whole.skip(1) == Seq::<char>::empty());
        reveal_with_fuel(shown, 2);
        reveal_with_fuel(inside_after, 2);
    } else {
        assert(body.contains(body[0]));
        assert(whole.skip(1) == body.skip(1) + seq!['m']);
        assert forall|i: int| 0 <= i < body.skip(1).len() implies body.skip(1)[i] != 'm' by {
            assert(body.contains(body[i + 1]));
        }
        lemma_body_shown(body.skip(1));
    }
}

/// One more character opens a sequence, ends one or changes nothing.
proof fn lemma_inside_push(text: Seq<char>, c: char, inside: bool)
    ensures
        inside_after(text.push(c), inside) == (if inside_after(text, inside) {
            c != 'm'
        } else {
            c == ESCAPE
        }),
{
    assert(text.push(c) == text + seq![c]);
    lemma_shown_concat(text, seq![c], inside);
    assert(seq![c].skip(1) == Seq::<char>::empty());
    reveal_with_fuel(inside_after, 2);
}

/// White space at the end neither opens nor ends an escape sequence.
pub proof fn lemma_trim_keeps_sequences(text: Seq<char>)
    ensures
        closed(trimmed_end(text)) == closed(text),
    decreases text.len(),
{
    if text.len() > 0 && is_white(text.last()) {
        assert(text == text.drop_last().push(text.last()));
        lemma_inside_push(text.drop_last(), text.last(), false);
        lemma_trim_keeps_sequences(text.drop_last());
    }
}

proof fn lemma_line_keeps_sequences(text: Seq<char>)
    ensures
        closed(text.map_values(|c: char| on_one_line(c))) == closed(text),
    decreases text.len(),
{
    let line = text.map_values(|c: char| on_one_line(c));
    if text.len() > 0 {
        let before = text.drop_last();
        lemma_line_keeps_sequences(before);
        assert(text == before.push(text.last()));
        assert(line == before.map_values(|c: char| on_one_line(c)).push(
            on_one_line(text.last()),
        ));
        lemma_inside_push(before, text.last(), false);
        lemma_inside_push(
            before.map_values(|c: char| on_one_line(c)),
            on_one_line(text.last()),
            false,
        );
    } else {
        assert(line == text);
    }
}

/// Putting a text on one line neither opens nor cuts an escape sequence.
pub proof fn law_display_keeps_sequences(text: Seq<char>)
    ensures
        closed(displayed(text)) == closed(text),
{
    lemma_line_keeps_sequences(text);
    lemma_trim_keeps_sequences(text.map_values(|c: char| on_one_line(c)));
}

/// Removes the escape sequences.
pub fn strip_ansi(text: &str) -> (plain: String)
    ensures
        plain@ == visible(text@),
{
    let chars = chars_of(text);
    let mut plain = String::new();
    let mut inside = false;
    let mut i: usize = 0;
    assert(chars@.skip(0) == chars@);
    assert(plain@ + visible(chars@) =~= visible(text@));
    while i < chars.len()
        invariant
            i <= chars@.len(),
            chars@ == text@,
            plain@ + shown(chars@.skip(i as int), inside) == visible(text@),
        decreases chars@.len() - i,
    {
        let c = chars[i];
        let ghost rest = chars@.skip(i as int);
        assert(rest.skip(1) == chars@.skip(i + 1));
        if inside {
            inside = c != 'm';
        } else if c == ESCAPE {
            inside = true;
        } else {
            proof {
                let tail = shown(rest.skip(1), false);
                assert(plain@ + (seq![c] + tail) =~= plain@.push(c) + tail);
            }
            plain.push(c);
        }
        i += 1;
    }
    assert(plain@ + shown(chars@.skip(i as int), inside) =~= plain@);
    plain
}

/// The columns that `text` takes on a terminal.
pub fn visual_width(text: &str) -> (width: usize)
    ensures
        width == columns(text@),
        adds_up(visible(text@)),
        is_plain(visible(text@)) ==> width == plain_width(visible(text@)),
{
    text_columns(&strip_ansi(text))
}

/// The columns that a character is counted with where a line is shortened.
pub open spec fn counted(c: char) -> nat {
    match unicode_char_width(c) {
        Some(width) => width as nat,
        None => 0,
    }
}

/// The longest start of `text` whose characters take `room` columns at most, with the
/// escape sequences before, between and directly behind them. `text` starts inside an
/// escape sequence or not.
pub open spec fn clipped(text: Seq<char>, inside: bool, room: nat) -> Seq<char>
    decreases text.len(),
{
    if text.len() == 0 {
        Seq::empty()
    } else if inside {
        seq![text[0]] + clipped(text.skip(1), text[0] != 'm', room)
    } else if text[0] == ESCAPE {
        seq![text[0]] + clipped(text.skip(1), true, room)
    } else if counted(text[0]) > room {
        Seq::empty()
    } else {
        seq![text[0]] + clipped(text.skip(1), false, (room - counted(text[0])) as nat)
    }
}

/// `clipped` with the columns that `plain_columns` gives each character.
pub open spec fn plain_clipped(text: Seq<char>, inside: bool, room: nat) -> Seq<char>
    decreases text.len(),
{
    if text.len() == 0 {
        Seq::empty()
    } else if inside {
        seq![text[0]] + plain_clipped(text.skip(1), text[0] != 'm', room)
    } else if text[0] == ESCAPE {
        seq![text[0]] + plain_clipped(text.skip(1), true, room)
    } else {
        let width = plain_columns(text[0]).unwrap_or(0);
        if width > room {
            Seq::empty()
        } else {
            seq![text[0]] + plain_clipped(text.skip(1), false, (room - width) as nat)
        }
    }
}

/// `first - second`, but not below zero.
pub open spec fn less(first: nat, second: nat) -> nat {
    if first > second {
        (first - second) as nat
    } else {
        0
    }
}

/// The start of a line with its styles ended and an ellipsis behind it.
pub open spec fn cut_after(start: Seq<char>) -> Seq<char> {
    (if start.contains(ESCAPE) {
        start + RESET@
    } else {
        start
    }).push('…')
}

/// `line` cut to leave a column for the ellipsis, with its styles ended.
pub open spec fn shortened(line: Seq<char>, width: nat) -> Seq<char> {
    cut_after(clipped(line, false, less(width, 1)))
}

/// `line` with blanks behind it up to `width` columns.
pub open spec fn filled(line: Seq<char>, width: nat) -> Seq<char> {
    line + blanks(less(width, columns(line)))
}

/// `text` on one line, shortened or filled up to `width` columns.
pub open spec fn fitted(text: Seq<char>, width: nat) -> Seq<char> {
    let line = displayed(text);
    if columns(line) <= width {
        filled(line, width)
    } else {
        filled(shortened(line, width), width)
    }
}

/// `fitted` with the columns that `plain_columns` gives each character.
pub open spec fn plain_fitted(text: Seq<char>, width: nat) -> Seq<char> {
    let line = displayed(text);
    let short = if plain_width(visible(line)) <= width {
        line
    } else {
        cut_after(plain_clipped(line, false, less(width, 1)))
    };
    short + blanks(less(width, plain_width(visible(short))))
}

/// Adds blanks to `line` up to `width` columns.
fn fill(line: String, width: usize) -> (full: String)
    ensures
        full@ == filled(line@, width as nat),
        closed(line@) ==> closed(full@) && adds_up(visible(full@)) && columns(full@) == columns(
            line@,
        ) + less(width as nat, columns(line@)),
        is_plain(visible(line@)) ==> columns(line@) == plain_width(visible(line@)),
        closed(line@) && is_plain(visible(line@)) ==> is_plain(visible(full@)) && plain_width(
            visible(full@),
        ) == columns(full@),
{
    let current = visual_width(&line);
    let count: usize = if current < width { width - current } else { 0 };
    proof {
        lemma_blanks_shown(count as nat);
        lemma_shown_concat(line@, blanks(count as nat), false);
        lemma_adds_up_with_blanks(visible(line@), count as nat);
    }
    line.concat(&repeat_char(' ', count))
}

/// The start of `chars` that `clipped` describes.
fn clip(chars: &Vec<char>, limit: usize) -> (start: String)
    ensures
        start@ == clipped(chars@, false, limit as nat),
        closed(chars@) ==> closed(start@),
        is_plain(visible(chars@)) ==> {
            &&& is_plain(visible(start@))
            &&& plain_width(visible(start@)) <= limit
            &&& start@ == plain_clipped(chars@, false, limit as nat)
        },
{
    let mut start = String::new();
    let mut inside = false;
    let mut room: usize = limit;
    let mut full = false;
    let mut i: usize = 0;
    let ghost all = visible(chars@);
    assert(chars@.skip(0) == chars@);
    assert(start@ + clipped(chars@, false, limit as nat) =~= clipped(chars@, false, limit as nat));
    assert(start@ + plain_clipped(chars@, false, limit as nat) =~= plain_clipped(
        chars@,
        false,
        limit as nat,
    ));
    while i < chars.len() && !full
        invariant
            i <= chars@.len(),
            room <= limit,
            all == visible(chars@),
            start@ == chars@.take(i as int),
            full ==> start@ == clipped(chars@, false, limit as nat) && !inside,
            !full ==> start@ + clipped(chars@.skip(i as int), inside, room as nat) == clipped(
                chars@,
                false,
                limit as nat,
            ),
            inside == inside_after(start@, false),
            is_plain(all) ==> is_plain(visible(start@)) && plain_width(visible(start@)) + room
                == limit,
            is_plain(all) && full ==> start@ == plain_clipped(chars@, false, limit as nat),
            is_plain(all) && !full ==> start@ + plain_clipped(
                chars@.skip(i as int),
                inside,
                room as nat,
            ) == plain_clipped(chars@, false, limit as nat),
        decreases chars@.len() - i + (if full { 0int } else { 1int }),
    {
        let c = chars[i];
        let ghost rest = chars@.skip(i as int);
        let ghost before = start@;
        proof {
            assert(rest.skip(1) == chars@.skip(i + 1));
            assert(before.push(c) == before + seq![c]);
            assert(before.push(c) == chars@.take(i + 1));
            lemma_shown_concat(before, seq![c], false);
            assert(seq![c].skip(1) == Seq::<char>::empty());
            reveal_with_fuel(shown, 2);
            reveal_with_fuel(inside_after, 2);
            assert(seq![c] + Seq::<char>::empty() == seq![c]);
            if inside || c == ESCAPE {
                assert(visible(before.push(c)) =~= visible(before));
            } else {
                assert(visible(before.push(c)) =~= visible(before).push(c));
                assert(before + rest == chars@);
                lemma_shown_concat(before, rest, false);
                assert(all[visible(before).len() as int] == c);
                assert(visible(before).push(c).drop_last() == visible(before));
            }
        }
        if inside {
            proof {
                let tail = clipped(rest.skip(1), c != 'm', room as nat);
                assert(before + (seq![c] + tail) =~= before.push(c) + tail);
                let plain_tail = plain_clipped(rest.skip(1), c != 'm', room as nat);
                assert(before + (seq![c] + plain_tail) =~= before.push(c) + plain_tail);
            }
            start.push(c);
            inside = c != 'm';
            i += 1;
        } else if c == ESCAPE {
            proof {
                let tail = clipped(rest.skip(1), true, room as nat);
                assert(before + (seq![c] + tail) =~= before.push(c) + tail);
                let plain_tail = plain_clipped(rest.skip(1), true, room as nat);
                assert(before + (seq![c] + plain_tail) =~= before.push(c) + plain_tail);
            }
            start.push(c);
            inside = true;
            i += 1;
        } else {
            let width: usize = match char_columns(c) {
                Some(width) => width,
                None => 0,
            };
            if width > room {
                assert(before + Seq::<char>::empty() =~= before);
                full = true;
            } else {
                proof {
                    let tail = clipped(rest.skip(1), false, (room - width) as nat);
                    assert(before + (seq![c] + tail) =~= before.push(c) + tail);
                    let plain_tail = plain_clipped(rest.skip(1), false, (room - width) as nat);
                    assert(before + (seq![c] + plain_tail) =~= before.push(c) + plain_tail);
                }
                start.push(c);
                room -= width;
                i += 1;
            }
        }
    }
    proof {
        if !full {
            assert(start@ + clipped(chars@.skip(i as int), inside, room as nat) =~= start@);
            assert(start@ + plain_clipped(chars@.skip(i as int), inside, room as nat) =~= start@);
            assert(chars@.take(i as int) == chars@);
        }
    }
    start
}

/// Whether `text` can be put on exactly `width` columns: every text can that takes no
/// more, and every plain one where there is room for an ellipsis.
pub open spec fn fits(text: Seq<char>, width: nat) -> bool {
    &&& closed(text)
    &&& columns(displayed(text)) <= width || (width >= 1 && is_plain(visible(displayed(text))))
}

/// Puts `text` on one line of `width` columns, with an ellipsis where it has to be
/// shortened. The columns are exact where the text `fits`; a shortened text with other
/// characters may take more, never less. A plain text is cut by `plain_columns`.
pub fn fit(text: &str, width: usize) -> (line: String)
    ensures
        line@ == fitted(text@, width as nat),
        closed(text@) ==> closed(line@) && adds_up(visible(line@)) && columns(line@) >= width,
        fits(text@, width as nat) ==> columns(line@) == width,
        closed(text@) && is_plain(visible(displayed(text@))) ==> is_plain(visible(line@))
            && plain_width(visible(line@)) == columns(line@),
        is_plain(visible(displayed(text@))) ==> line@ == plain_fitted(text@, width as nat),
{
    proof {
        law_display_keeps_sequences(text@);
    }
    let text = display_line(text);
    if visual_width(&text) <= width {
        return fill(text, width);
    }
    let limit: usize = if width > 0 { width - 1 } else { 0 };
    let chars = chars_of(&text);
    let mut output = clip(&chars, limit);
    let ghost start = output@;
    let had_ansi = has_escape(&output);
    if had_ansi {
        output.append(RESET);
    }
    let ghost ended = output@;
    output.push('…');
    proof {
        lemma_reset_shown();
        lemma_shown_concat(start, RESET@, false);
        if !had_ansi {
            lemma_shown_unescaped(start);
        }
        assert(visible(ended) =~= visible(start));
        assert(closed(ended));
        assert(seq!['…'].skip(1) == Seq::<char>::empty());
        reveal_with_fuel(shown, 2);
        reveal_with_fuel(inside_after, 2);
        assert(visible(seq!['…']) =~= seq!['…']);
        assert(ended.push('…') == ended + seq!['…']);
        lemma_shown_concat(ended, seq!['…'], false);
        assert(visible(output@) =~= visible(start).push('…'));
        assert(visible(output@).drop_last() == visible(start));
    }
    fill(output, width)
}

/// Whether an escape sequence starts in `text`.
fn has_escape(text: &str) -> (found: bool)
    ensures
        found == text@.contains(ESCAPE),
{
    let chars = chars_of(text);
    let mut i: usize = 0;
    while i < chars.len()
        invariant
            i <= chars@.len(),
            chars@ == text@,
            forall|j: int| 0 <= j < i ==> chars@[j] != ESCAPE,
        decreases chars@.len() - i,
    {
        if chars[i] == ESCAPE {
            assert(text@[i as int] == ESCAPE);
            return true;
        }
        i += 1;
    }
    false
}

/// `text` on one line, with blanks behind it up to `width` columns.
pub open spec fn padded_right(text: Seq<char>, width: nat) -> Seq<char> {
    filled(displayed(text), width)
}

/// `text` on one line, with blanks before it up to `width` columns.
pub open spec fn padded_left(text: Seq<char>, width: nat) -> Seq<char> {
    blanks(less(width, columns(displayed(text)))) + displayed(text)
}

/// Puts `text` at the left of `width` columns, or alone where it takes more.
pub fn pad_right_visual(text: &str, width: usize) -> (line: String)
    ensures
        line@ == padded_right(text@, width as nat),
        closed(text@) ==> closed(line@) && columns(line@) == columns(displayed(text@)) + less(
            width as nat,
            columns(displayed(text@)),
        ),
        is_plain(visible(displayed(text@))) ==> columns(displayed(text@)) == plain_width(
            visible(displayed(text@)),
        ),
{
    proof {
        law_display_keeps_sequences(text@);
    }
    fill(display_line(text), width)
}

/// Puts `text` at the right of `width` columns, or alone where it takes more.
pub fn pad_left_visual(text: &str, width: usize) -> (line: String)
    ensures
        line@ == padded_left(text@, width as nat),
        columns(line@) == columns(displayed(text@)) + less(
            width as nat,
            columns(displayed(text@)),
        ),
        is_plain(visible(displayed(text@))) ==> columns(displayed(text@)) == plain_width(
            visible(displayed(text@)),
        ),
{
    let text = display_line(text);
    let current = visual_width(&text);
    let count: usize = if current < width { width - current } else { 0 };
    proof {
        let none = Seq::<char>::empty();
        let spaces = blanks(count as nat);
        lemma_blanks_shown(count as nat);
        lemma_shown_concat(spaces, text@, false);
        lemma_plain_repeated(' ', count as nat);
        assert(spaces + visible(text@) + none =~= spaces + visible(text@));
        assert(unicode_str_width(spaces + visible(text@) + none) == count + current);
    }
    repeat_char(' ', count).concat(&text)
}

proof fn lemma_shown_without_escape(text: Seq<char>, inside: bool)
    ensures
        !shown(text, inside).contains(ESCAPE),
    decreases text.len(),
{
    if text.len() > 0 {
        let rest = text.skip(1);
        let next = if inside {
            text[0] != 'm'
        } else {
            text[0] == ESCAPE
        };
        lemma_shown_without_escape(rest, next);
        if !inside && text[0] != ESCAPE {
            let all = shown(text, inside);
            assert forall|i: int| 0 <= i < all.len() implies all[i] != ESCAPE by {
                if i > 0 {
                    assert(shown(rest, false).contains(shown(rest, false)[i - 1]));
                }
            }
        }
    }
}

/// Without its escape sequences a text holds no escape character, so removing them
/// again changes nothing.
pub proof fn law_strip_is_final(text: Seq<char>)
    ensures
        !visible(text).contains(ESCAPE),
        visible(visible(text)) == visible(text),
{
    lemma_shown_without_escape(text, false);
    lemma_shown_unescaped(visible(text));
}

proof fn lemma_clipped_prefix(text: Seq<char>, inside: bool, room: nat)
    ensures
        clipped(text, inside, room).len() <= text.len(),
        clipped(text, inside, room) == text.take(clipped(text, inside, room).len() as int),
    decreases text.len(),
{
    if text.len() > 0 {
        let rest = text.skip(1);
        if inside {
            lemma_clipped_prefix(rest, text[0] != 'm', room);
        } else if text[0] == ESCAPE {
            lemma_clipped_prefix(rest, true, room);
        } else if counted(text[0]) <= room {
            lemma_clipped_prefix(rest, false, (room - counted(text[0])) as nat);
        }
    }
    assert(clipped(text, inside, room) =~= text.take(clipped(text, inside, room).len() as int));
}

/// A fitted text stands on one line, and starts as the displayed text does: with all of
/// it, or with the part before the ellipsis.
pub proof fn law_fitted_is_one_line(text: Seq<char>, width: nat)
    ensures
        is_one_line(fitted(text, width)),
        columns(displayed(text)) <= width ==> displayed(text).is_prefix_of(fitted(text, width)),
        columns(displayed(text)) > width ==> ({
            let start = clipped(displayed(text), false, less(width, 1));
            &&& start.is_prefix_of(displayed(text))
            &&& start.is_prefix_of(fitted(text, width))
        }),
{
    let line = displayed(text);
    law_displayed_is_one_line(text);
    reveal_strlit("\x1b[0m");
    let start = clipped(line, false, less(width, 1));
    lemma_clipped_prefix(line, false, less(width, 1));
    let full = fitted(text, width);
    let ended = if start.contains(ESCAPE) {
        start + RESET@
    } else {
        start
    };
    assert forall|i: int| 0 <= i < full.len() implies on_one_line(#[trigger] full[i])
        == full[i] by {
        if columns(line) <= width {
            if i < line.len() {
                assert(full[i] == line[i]);
            }
        } else if i < start.len() {
            assert(full[i] == line[i]);
        } else if i < ended.len() {
            assert(full[i] == RESET@[i - start.len()]);
        } else if i == ended.len() {
            assert(full[i] == '…');
        }
    }
}

/// What is shown of a text: up to its first escape character all of it, and behind the
/// sequence that starts there what is shown of the rest. A sequence that does not end hides
/// all the rest.
pub proof fn law_sequences_are_hidden(before: Seq<char>, body: Seq<char>, rest: Seq<char>)
    requires
        !before.contains(ESCAPE),
        !body.contains('m'),
    ensures
        visible(before) == before,
        visible(before + (seq![ESCAPE] + body + seq!['m']) + rest) == before + visible(rest),
        visible(before + (seq![ESCAPE] + body)) == before,
{
    let sequence = seq![ESCAPE] + body + seq!['m'];
    let open = seq![ESCAPE] + body;
    lemma_shown_unescaped(before);
    lemma_sequence_shown(body);
    lemma_shown_concat(before, sequence, false);
    lemma_shown_concat(before + sequence, rest, false);
    assert(visible(before + sequence + rest) =~= before + visible(rest));
    lemma_shown_concat(before, open, false);
    lemma_shown_concat(open, seq!['m'], false);
    assert(open + seq!['m'] =~= sequence);
    assert(shown(open, false) =~= Seq::<char>::empty());
    assert(visible(before + open) =~= before);
}

/// A plain text that takes more columns than there are is cut as late as possible: what is
/// kept of it and the ellipsis stay within the width, and one character more would not.
/// Blanks fill up what is left.
pub proof fn law_plain_text_is_cut_late(text: Seq<char>, width: nat) -> (kept: int)
    requires
        is_plain(text),
        text.len() > 0 ==> text.last() != ' ',
        width >= 1,
        plain_width(text) > width,
    ensures
        0 <= kept < text.len(),
        plain_width(text.take(kept)) + 1 <= width,
        plain_width(text.take(kept + 1)) + 1 > width,
        plain_fitted(text, width) == text.take(kept) + seq!['…'] + blanks(
            (width - 1 - plain_width(text.take(kept))) as nat,
        ),
{
    assert(!text.contains(ESCAPE)) by {
        if text.contains(ESCAPE) {
            let i = choose|i: int| 0 <= i < text.len() && text[i] == ESCAPE;
            assert(plain_columns(text[i]) is Some);
        }
    }
    lemma_shown_unescaped(text);
    lemma_plain_is_displayed(text);
    let kept = lemma_plain_cut(text, (width - 1) as nat);
    let start = text.take(kept);
    assert(plain_clipped(text, false, (width - 1) as nat) == start);
    assert(!start.contains(ESCAPE)) by {
        if start.contains(ESCAPE) {
            let i = choose|i: int| 0 <= i < start.len() && start[i] == ESCAPE;
            assert(text[i] == ESCAPE);
        }
    }
    let short = start.push('…');
    assert(!short.contains(ESCAPE)) by {
        if short.contains(ESCAPE) {
            let i = choose|i: int| 0 <= i < short.len() && short[i] == ESCAPE;
            if i < start.len() {
                assert(start.contains(start[i]));
            }
        }
    }
    lemma_shown_unescaped(short);
    assert(short.drop_last() =~= start);
    assert(plain_width(short) == plain_width(start) + 1);
    assert(plain_fitted(text, width) =~= start + seq!['…'] + blanks(
        (width - 1 - plain_width(start)) as nat,
    ));
    kept
}

/// A plain text within the width is kept whole, with blanks behind it.
pub proof fn law_plain_text_is_kept(text: Seq<char>, width: nat)
    requires
        is_plain(text),
        text.len() > 0 ==> text.last() != ' ',
        plain_width(text) <= width,
    ensures
        plain_fitted(text, width) == text + blanks((width - plain_width(text)) as nat),
{
    assert(!text.contains(ESCAPE)) by {
        if text.contains(ESCAPE) {
            let i = choose|i: int| 0 <= i < text.len() && text[i] == ESCAPE;
            assert(plain_columns(text[i]) is Some);
        }
    }
    lemma_shown_unescaped(text);
    lemma_plain_is_displayed(text);
}

/// A plain text that ends in no blank is displayed as it is.
pub proof fn lemma_plain_is_displayed(text: Seq<char>)
    requires
        is_plain(text),
        text.len() > 0 ==> text.last() != ' ',
    ensures
        displayed(text) == text,
{
    assert forall|i: int| 0 <= i < text.len() implies on_one_line(#[trigger] text[i])
        == text[i] by {
        assert(plain_columns(text[i]) is Some);
    }
    assert(text.map_values(|c: char| on_one_line(c)) =~= text);
    if text.len() > 0 {
        assert(plain_columns(text[text.len() - 1]) is Some);
        assert(!is_white(text.last()));
    }
}

proof fn lemma_plain_cut(text: Seq<char>, room: nat) -> (kept: int)
    requires
        is_plain(text),
        plain_width(text) > room,
    ensures
        0 <= kept < text.len(),
        plain_clipped(text, false, room) == text.take(kept),
        plain_width(text.take(kept)) <= room,
        plain_width(text.take(kept + 1)) > room,
    decreases text.len(),
{
    let first = plain_columns(text[0])->0;
    let rest = text.skip(1);
    assert(plain_columns(text[0]) is Some);
    assert(seq![text[0]] + rest =~= text);
    lemma_plain_concat(seq![text[0]], rest);
    reveal_with_fuel(plain_width, 2);
    assert(seq![text[0]].drop_last() =~= Seq::<char>::empty());
    assert(plain_width(seq![text[0]]) == first);
    if first > room {
        assert(text.take(1) =~= seq![text[0]]);
        assert(plain_clipped(text, false, room) =~= text.take(0));
        0
    } else {
        let left = (room - first) as nat;
        let kept = lemma_plain_cut(rest, left);
        assert(text.take(kept + 1) =~= seq![text[0]] + rest.take(kept));
        assert(text.take(kept + 2) =~= seq![text[0]] + rest.take(kept + 1));
        lemma_plain_concat(seq![text[0]], rest.take(kept));
        lemma_plain_concat(seq![text[0]], rest.take(kept + 1));
        kept + 1
    }
}

/// A padded text is the displayed text with blanks at one side, as many as are missing to
/// the width.
pub proof fn law_padding_is_blanks(text: Seq<char>, width: nat)
    ensures
        padded_right(text, width) == displayed(text) + blanks(
            if columns(displayed(text)) < width {
                (width - columns(displayed(text))) as nat
            } else {
                0
            },
        ),
        padded_left(text, width) == blanks(
            if columns(displayed(text)) < width {
                (width - columns(displayed(text))) as nat
            } else {
                0
            },
        ) + displayed(text),
{
}

/// Printable ASCII takes one column, a syllable of Hangul two, and a control character is no
/// plain text.
pub proof fn law_plain_characters(c: char)
    ensures
        ' ' <= c <= '~' ==> plain_columns(c) == Some(1nat),
        '가' <= c <= '힣' ==> plain_columns(c) == Some(2nat),
        c < ' ' || c == '\u{7f}' ==> plain_columns(c) is None,
{
}

/// The columns of the characters of a text, counted one by one; a character without columns
/// counts for none.
pub open spec fn single_columns(text: Seq<char>) -> nat
    decreases text.len(),
{
    if text.len() == 0 {
        0
    } else {
        single_columns(text.drop_last()) + (match unicode_char_width(text.last()) {
            Some(width) => width as nat,
            None => 0,
        })
    }
}

proof fn lemma_single_columns_concat(left: Seq<char>, right: Seq<char>)
    ensures
        single_columns(left + right) == single_columns(left) + single_columns(right),
    decreases right.len(),
{
    if right.len() == 0 {
        assert(left + right =~= left);
    } else {
        lemma_single_columns_concat(left, right.drop_last());
        assert((left + right).drop_last() =~= left + right.drop_last());
    }
}

/// Any text without escape sequences is cut as late as its characters allow: what is kept
/// takes no more than the room there is, and one character more would.
pub proof fn law_text_is_cut_late(text: Seq<char>, room: nat) -> (kept: int)
    requires
        !text.contains(ESCAPE),
    ensures
        0 <= kept <= text.len(),
        clipped(text, false, room) == text.take(kept),
        single_columns(text.take(kept)) <= room,
        kept < text.len() ==> single_columns(text.take(kept + 1)) > room,
    decreases text.len(),
{
    if text.len() == 0 {
        assert(clipped(text, false, room) =~= text.take(0));
        0
    } else {
        let first = seq![text[0]];
        let rest = text.skip(1);
        assert(text.contains(text[0]));
        assert(!rest.contains(ESCAPE)) by {
            if rest.contains(ESCAPE) {
                let i = choose|i: int| 0 <= i < rest.len() && rest[i] == ESCAPE;
                assert(text[i + 1] == ESCAPE);
            }
        }
        reveal_with_fuel(single_columns, 2);
        assert(first.drop_last() =~= Seq::<char>::empty());
        assert(single_columns(first) == counted(text[0]));
        if counted(text[0]) > room {
            assert(text.take(1) =~= first);
            assert(clipped(text, false, room) =~= text.take(0));
            0
        } else {
            let kept = law_text_is_cut_late(rest, (room - counted(text[0])) as nat);
            assert(text.take(kept + 1) =~= first + rest.take(kept));
            lemma_single_columns_concat(first, rest.take(kept));
            if kept < rest.len() {
                assert(text.take(kept + 2) =~= first + rest.take(kept + 1));
                lemma_single_columns_concat(first, rest.take(kept + 1));
            }
            kept + 1
        }
    }
}

/// A sequence takes no room: it is kept before whatever is kept of the rest.
pub proof fn law_sequences_take_no_room(body: Seq<char>, rest: Seq<char>, room: nat)
    requires
        !body.contains('m'),
    ensures
        clipped(seq![ESCAPE] + body + seq!['m'] + rest, false, room) == seq![ESCAPE] + body + seq![
            'm',
        ] + clipped(rest, false, room),
{
    let text = seq![ESCAPE] + body + seq!['m'] + rest;
    assert(text.skip(1) =~= body + seq!['m'] + rest);
    lemma_body_kept(body, rest, room);
    assert(clipped(text, false, room) =~= seq![ESCAPE] + body + seq!['m'] + clipped(
        rest,
        false,
        room,
    ));
}

proof fn lemma_body_kept(body: Seq<char>, rest: Seq<char>, room: nat)
    requires
        !body.contains('m'),
    ensures
        clipped(body + seq!['m'] + rest, true, room) == body + seq!['m'] + clipped(
            rest,
            false,
            room,
        ),
    decreases body.len(),
{
    let text = body + seq!['m'] + rest;
    if body.len() == 0 {
        assert(text.skip(1) =~= rest);
        assert(clipped(text, true, room) =~= body + seq!['m'] + clipped(rest, false, room));
    } else {
        let shorter = body.skip(1);
        assert(body.contains(body[0]));
        assert forall|i: int| 0 <= i < shorter.len() implies shorter[i] != 'm' by {
            assert(body.contains(body[i + 1]));
        }
        assert(text.skip(1) =~= shorter + seq!['m'] + rest);
        lemma_body_kept(shorter, rest, room);
        assert(clipped(text, true, room) =~= body + seq!['m'] + clipped(rest, false, room));
    }
}

/// A line that is cut ends in an ellipsis, behind a sequence that ends all styles where a
/// sequence was kept. A line that is not cut is kept whole.
pub proof fn law_cut_lines_end_in_an_ellipsis(text: Seq<char>, width: nat)
    ensures
        ({
            let line = displayed(text);
            let start = clipped(
                line,
                false,
                if width > 0 {
                    (width - 1) as nat
                } else {
                    0
                },
            );
            &&& columns(line) <= width ==> fitted(text, width) == line + blanks(
                (width - columns(line)) as nat,
            )
            &&& columns(line) > width && !start.contains(ESCAPE) ==> (start
                + seq!['…']).is_prefix_of(fitted(text, width))
            &&& columns(line) > width && start.contains(ESCAPE) ==> (start + seq![
                ESCAPE,
                '[',
                '0',
                'm',
                '…',
            ]).is_prefix_of(fitted(text, width))
        }),
{
    reveal_strlit("\x1b[0m");
    let line = displayed(text);
    let start = clipped(line, false, less(width, 1));
    let cut = shortened(line, width);
    assert(!start.contains(ESCAPE) ==> cut =~= start + seq!['…']);
    assert(start.contains(ESCAPE) ==> cut =~= start + seq![ESCAPE, '[', '0', 'm', '…']);
    if columns(line) > width {
        assert(fitted(text, width).take(cut.len() as int) =~= cut);
    }
}

} // verus!
