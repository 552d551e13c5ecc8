//! Text as sequences of characters: copying, trimming and joining.
use vstd::prelude::*;

verus! {

/// `String::push` of std appends the given character to the string.
pub assume_specification[ String::push ](s: &mut String, c: char)
    ensures
        final(s)@ == old(s)@.push(c),
;

/// The characters of `text`, in order.
pub fn chars_of(text: &str) -> (chars: Vec<char>)
    ensures
        chars@ == text@,
{
    let mut chars: Vec<char> = Vec::new();
    for c in it: text.chars()
        invariant
            it.seq() == text@,
            chars@ == text@.take(it.index()),
    {
        chars.push(c);
    }
    chars
}

/// The text that holds the characters `from..to` of `chars`.
pub fn text_between(chars: &Vec<char>, from: usize, to: usize) -> (text: String)
    requires
        from <= to <= chars@.len(),
    ensures
        text@ == chars@.subrange(from as int, to as int),
{
    let mut text = String::new();
    let mut i: usize = from;
    while i < to
        invariant
            from <= i <= to <= chars@.len(),
            text@ == chars@.subrange(from as int, i as int),
        decreases to - i,
    {
        text.push(chars[i]);
        i += 1;
    }
    text
}

/// Whether both texts hold the same characters.
pub fn same_text(left: &str, right: &str) -> (same: bool)
    ensures
        same == (left@ == right@),
{
    let a = chars_of(left);
    let b = chars_of(right);
    if a.len() != b.len() {
        return false;
    }
    let mut i: usize = 0;
    while i < a.len()
        invariant
            a@ == left@,
            b@ == right@,
            a@.len() == b@.len(),
            i <= a@.len(),
            forall|j: int| 0 <= j < i ==> a@[j] == b@[j],
        decreases a@.len() - i,
    {
        if a[i] != b[i] {
            return false;
        }
        i += 1;
    }
    assert(a@ == b@);
    true
}

/// `count` blanks.
pub open spec fn blanks(count: nat) -> Seq<char> {
    repeated(' ', count)
}

/// `count` copies of `c`.
pub open spec fn repeated(c: char, count: nat) -> Seq<char> {
    Seq::new(count, |i: int| c)
}

/// The text of `count` copies of `c`.
pub fn repeat_char(c: char, count: usize) -> (text: String)
    ensures
        text@ == repeated(c, count as nat),
{
    let mut text = String::new();
    let mut i: usize = 0;
    while i < count
        invariant
            i <= count,
            text@ == repeated(c, i as nat),
        decreases count - i,
    {
        text.push(c);
        i += 1;
        assert(text@ =~= repeated(c, i as nat));
    }
    text
}

/// Whether `c` has the Unicode property `White_Space`.
pub open spec fn is_white(c: char) -> bool {
    ||| '\u{9}' <= c <= '\u{d}'
    ||| c == ' '
    ||| c == '\u{85}'
    ||| c == '\u{a0}'
    ||| c == '\u{1680}'
    ||| '\u{2000}' <= c <= '\u{200a}'
    ||| c == '\u{2028}'
    ||| c == '\u{2029}'
    ||| c == '\u{202f}'
    ||| c == '\u{205f}'
    ||| c == '\u{3000}'
}

/// Whether `c` is white space.
pub fn is_white_space(c: char) -> (white: bool)
    ensures
        white == is_white(c),
{
    ('\u{9}' <= c && c <= '\u{d}') || c == ' ' || c == '\u{85}' || c == '\u{a0}' || c == '\u{1680}'
        || ('\u{2000}' <= c && c <= '\u{200a}') || c == '\u{2028}' || c == '\u{2029}'
        || c == '\u{202f}' || c == '\u{205f}' || c == '\u{3000}'
}

/// `text` without the white space at its end.
pub open spec fn trimmed_end(text: Seq<char>) -> Seq<char>
    decreases text.len(),
{
    if text.len() > 0 && is_white(text.last()) {
        trimmed_end(text.drop_last())
    } else {
        text
    }
}

/// `text` without the white space at its start.
pub open spec fn trimmed_start(text: Seq<char>) -> Seq<char>
    decreases text.len(),
{
    if text.len() > 0 && is_white(text[0]) {
        trimmed_start(text.skip(1))
    } else {
        text
    }
}

/// `text` without the white space at both ends.
pub open spec fn trimmed(text: Seq<char>) -> Seq<char> {
    trimmed_end(trimmed_start(text))
}

/// How many characters of `chars` are left without the white space at its end.
fn end_of_trimmed(chars: &Vec<char>) -> (end: usize)
    ensures
        end <= chars@.len(),
        chars@.take(end as int) == trimmed_end(chars@),
{
    let mut end: usize = chars.len();
    assert(chars@.take(end as int) == chars@);
    while end > 0 && is_white_space(chars[end - 1])
        invariant
            end <= chars@.len(),
            trimmed_end(chars@.take(end as int)) == trimmed_end(chars@),
        decreases end,
    {
        assert(chars@.take(end as int).drop_last() == chars@.take(end - 1));
        end -= 1;
    }
    end
}

/// Removes the white space at the end.
pub fn trim_end(text: &str) -> (short: String)
    ensures
        short@ == trimmed_end(text@),
{
    let chars = chars_of(text);
    let end = end_of_trimmed(&chars);
    text_between(&chars, 0, end)
}

/// Removes the white space at both ends.
pub fn trim(text: &str) -> (short: String)
    ensures
        short@ == trimmed(text@),
{
    let chars = chars_of(text);
    let mut start: usize = 0;
    assert(chars@.skip(0) == chars@);
    while start < chars.len() && is_white_space(chars[start])
        invariant
            start <= chars@.len(),
            chars@ == text@,
            trimmed_start(chars@.skip(start as int)) == trimmed_start(text@),
        decreases chars@.len() - start,
    {
        assert(chars@.skip(start as int).skip(1) == chars@.skip(start + 1));
        start += 1;
    }
    let mut end: usize = chars.len();
    assert(chars@.subrange(start as int, end as int) == chars@.skip(start as int));
    while end > start && is_white_space(chars[end - 1])
        invariant
            start <= end <= chars@.len(),
            trimmed_end(chars@.subrange(start as int, end as int)) == trimmed(text@),
        decreases end,
    {
        assert(chars@.subrange(start as int, end as int).drop_last() == chars@.subrange(
            start as int,
            end - 1,
        ));
        end -= 1;
    }
    text_between(&chars, start, end)
}

/// What a line break or a tab is shown as.
pub open spec fn on_one_line(c: char) -> char {
    if c == '\r' || c == '\n' || c == '\t' {
        ' '
    } else {
        c
    }
}

/// `text` as it stands on a line of the board: blanks for line breaks and tabs,
/// nothing white at the end.
pub open spec fn displayed(text: Seq<char>) -> Seq<char> {
    trimmed_end(text.map_values(|c: char| on_one_line(c)))
}

/// Turns `text` into what can stand on one line of the board.
pub fn display_line(text: &str) -> (line: String)
    ensures
        line@ == displayed(text@),
{
    let source = chars_of(text);
    let mut chars: Vec<char> = Vec::new();
    let mut i: usize = 0;
    while i < source.len()
        invariant
            i <= source@.len(),
            source@ == text@,
            chars@ == text@.take(i as int).map_values(|c: char| on_one_line(c)),
        decreases source@.len() - i,
    {
        let c = source[i];
        chars.push(if c == '\r' || c == '\n' || c == '\t' { ' ' } else { c });
        i += 1;
        assert(chars@ =~= text@.take(i as int).map_values(|c: char| on_one_line(c)));
    }
    assert(text@.take(i as int) == text@);
    let end = end_of_trimmed(&chars);
    text_between(&chars, 0, end)
}

/// The words of `text`, that is its longest runs without white space, with one
/// blank between two words.
pub open spec fn squeezed(text: Seq<char>) -> Seq<char>
    decreases text.len(),
{
    if text.len() == 0 {
        Seq::empty()
    } else {
        let before = text.drop_last();
        let kept = squeezed(before);
        if is_white(text.last()) {
            kept
        } else if kept.len() > 0 && is_white(before.last()) {
            kept.push(' ').push(text.last())
        } else {
            kept.push(text.last())
        }
    }
}

/// Puts the words of `text` on one line, one blank apart.
pub fn single_line(text: &str) -> (line: String)
    ensures
        line@ == squeezed(text@),
{
    let chars = chars_of(text);
    let mut line = String::new();
    let mut between = false;
    let mut i: usize = 0;
    while i < chars.len()
        invariant
            i <= chars@.len(),
            chars@ == text@,
            line@ == squeezed(text@.take(i as int)),
            between == (i > 0 && is_white(text@[i - 1])),
        decreases chars@.len() - i,
    {
        let c = chars[i];
        assert(text@.take(i + 1).drop_last() == text@.take(i as int));
        if is_white_space(c) {
            between = true;
        } else {
            if between && !line.as_str().is_empty() {
                line.push(' ');
            }
            line.push(c);
            between = false;
        }
        i += 1;
    }
    assert(text@.take(i as int) == text@);
    line
}

/// Whether `text` holds no line break and no tab.
pub open spec fn is_one_line(text: Seq<char>) -> bool {
    forall|i: int| 0 <= i < text.len() ==> on_one_line(#[trigger] text[i]) == text[i]
}

/// What is left without the white space at the end is a start of the text, and ends in
/// nothing white.
pub proof fn lemma_trimmed_end(text: Seq<char>)
    ensures
        trimmed_end(text).len() <= text.len(),
        trimmed_end(text) == text.take(trimmed_end(text).len() as int),
        trimmed_end(text).len() > 0 ==> !is_white(trimmed_end(text).last()),
        trimmed_end(trimmed_end(text)) == trimmed_end(text),
    decreases text.len(),
{
    if text.len() > 0 && is_white(text.last()) {
        let before = text.drop_last();
        lemma_trimmed_end(before);
        assert(before.take(trimmed_end(before).len() as int) =~= text.take(
            trimmed_end(before).len() as int,
        ));
    } else {
        assert(text.take(text.len() as int) =~= text);
    }
}

/// Blanks at the end are white space.
pub proof fn lemma_blanks_trimmed(text: Seq<char>, count: nat)
    ensures
        trimmed_end(text + blanks(count)) == trimmed_end(text),
    decreases count,
{
    let full = text + blanks(count);
    if count == 0 {
        assert(full =~= text);
    } else {
        lemma_blanks_trimmed(text, (count - 1) as nat);
        assert(full.drop_last() =~= text + blanks((count - 1) as nat));
    }
}

/// A displayed text stands on one line, ends in nothing white, and is displayed as
/// itself.
pub proof fn law_displayed_is_one_line(text: Seq<char>)
    ensures
        is_one_line(displayed(text)),
        displayed(text).len() > 0 ==> !is_white(displayed(text).last()),
        displayed(displayed(text)) == displayed(text),
{
    let line = text.map_values(|c: char| on_one_line(c));
    lemma_trimmed_end(line);
    let shown = displayed(text);
    assert forall|i: int| 0 <= i < shown.len() implies on_one_line(#[trigger] shown[i])
        == shown[i] by {
        assert(shown[i] == line[i]);
    }
    assert(shown.map_values(|c: char| on_one_line(c)) =~= shown);
}

/// Whether the only white space of `text` is single blanks between its words.
pub open spec fn is_squeezed(text: Seq<char>) -> bool {
    &&& text.len() > 0 ==> !is_white(text[0]) && !is_white(text.last())
    &&& forall|i: int|
        0 <= i < text.len() && is_white(#[trigger] text[i]) ==> text[i] == ' ' && i + 1 < text.len()
            && !is_white(text[i + 1])
}

proof fn lemma_squeezed(text: Seq<char>)
    ensures
        is_squeezed(squeezed(text)),
    decreases text.len(),
{
    if text.len() > 0 {
        let before = text.drop_last();
        lemma_squeezed(before);
        let kept = squeezed(before);
        let all = squeezed(text);
        assert forall|i: int| 0 <= i < all.len() && is_white(#[trigger] all[i]) implies all[i]
            == ' ' && i + 1 < all.len() && !is_white(all[i + 1]) by {
            if i < kept.len() {
                assert(all[i] == kept[i]);
                assert(is_white(kept[i]));
                assert(all[i + 1] == kept[i + 1]);
            }
        }
        if kept.len() > 0 {
            assert(all[0] == kept[0]);
        }
    }
}

proof fn lemma_squeezed_stays(text: Seq<char>)
    requires
        text.len() > 0 ==> !is_white(text[0]),
        forall|i: int|
            0 <= i < text.len() && is_white(#[trigger] text[i]) ==> text[i] == ' ' && (i + 1
                < text.len() ==> !is_white(text[i + 1])),
    ensures
        squeezed(text) == (if text.len() > 0 && is_white(text.last()) {
            text.drop_last()
        } else {
            text
        }),
    decreases text.len(),
{
    if text.len() > 0 {
        let before = text.drop_last();
        assert forall|i: int| 0 <= i < before.len() && is_white(#[trigger] before[i]) implies before[i]
            == ' ' && (i + 1 < before.len() ==> !is_white(before[i + 1])) by {
            assert(is_white(text[i]));
        }
        lemma_squeezed_stays(before);
        if before.len() > 0 && is_white(before.last()) {
            assert(is_white(text[before.len() - 1]));
            assert(before.len() > 1);
            assert(before.drop_last().push(' ').push(text.last()) =~= text);
        } else {
            assert(before.push(text.last()) =~= text);
        }
    }
}

/// A text on one line holds its words, one blank apart, and stays as it is when it is
/// put on one line again.
pub proof fn law_single_line_is_final(text: Seq<char>)
    ensures
        is_squeezed(squeezed(text)),
        squeezed(squeezed(text)) == squeezed(text),
{
    lemma_squeezed(text);
    let line = squeezed(text);
    assert forall|i: int| 0 <= i < line.len() && is_white(#[trigger] line[i]) implies line[i] == ' '
        && (i + 1 < line.len() ==> !is_white(line[i + 1])) by {}
    lemma_squeezed_stays(line);
}

/// Blanks, tabs and line breaks are white space; printable ASCII and Hangul are not.
pub proof fn law_white_space(c: char)
    ensures
        c == ' ' || c == '\t' || c == '\n' || c == '\r' ==> is_white(c),
        '!' <= c <= '~' || '가' <= c <= '힣' ==> !is_white(c),
{
}

/// Trimming leaves the middle of a text: all before it and all behind it is white space,
/// and its own ends are not.
pub proof fn law_trim_keeps_middle(text: Seq<char>) -> (ends: (int, int))
    ensures
        0 <= ends.0 <= ends.1 <= text.len(),
        trimmed(text) == text.subrange(ends.0, ends.1),
        forall|i: int|
            (0 <= i < ends.0 || ends.1 <= i < text.len()) ==> is_white(#[trigger] text[i]),
        ends.0 < ends.1 ==> !is_white(text[ends.0]) && !is_white(text[ends.1 - 1]),
{
    let start = lemma_trimmed_start(text);
    let rest = text.skip(start);
    let end = lemma_trimmed_tail(rest);
    assert(trimmed(text) =~= text.subrange(start, start + end));
    assert forall|i: int| start + end <= i < text.len() implies is_white(#[trigger] text[i]) by {
        assert(rest[i - start] == text[i]);
    }
    if end > 0 {
        assert(rest[0] == text[start]);
        assert(rest[end - 1] == text[start + end - 1]);
    }
    (start, start + end)
}

proof fn lemma_trimmed_start(text: Seq<char>) -> (start: int)
    ensures
        0 <= start <= text.len(),
        trimmed_start(text) == text.skip(start),
        forall|i: int| 0 <= i < start ==> is_white(#[trigger] text[i]),
        start < text.len() ==> !is_white(text[start]),
    decreases text.len(),
{
    if text.len() > 0 && is_white(text[0]) {
        let rest = text.skip(1);
        let start = lemma_trimmed_start(rest);
        assert(rest.skip(start) =~= text.skip(start + 1));
        assert forall|i: int| 0 <= i < start + 1 implies is_white(#[trigger] text[i]) by {
            if i > 0 {
                assert(rest[i - 1] == text[i]);
            }
        }
        start + 1
    } else {
        assert(text.skip(0) =~= text);
        0
    }
}

/// Where the white space at the end of a text starts.
pub proof fn lemma_trimmed_tail(text: Seq<char>) -> (end: int)
    ensures
        0 <= end <= text.len(),
        trimmed_end(text) == text.take(end),
        forall|i: int| end <= i < text.len() ==> is_white(#[trigger] text[i]),
        end > 0 ==> !is_white(text[end - 1]),
    decreases text.len(),
{
    if text.len() > 0 && is_white(text.last()) {
        let rest = text.drop_last();
        let end = lemma_trimmed_tail(rest);
        assert(rest.take(end) =~= text.take(end));
        assert forall|i: int| end <= i < text.len() implies is_white(#[trigger] text[i]) by {
            if i < rest.len() {
                assert(rest[i] == text[i]);
            }
        }
        end
    } else {
        assert(text.take(text.len() as int) =~= text);
        text.len() as int
    }
}

/// On its line of the board a text keeps its characters: a line break or a tab becomes a
/// blank, every other character stays, and what is missing at the end is white space.
pub proof fn law_display_keeps_characters(text: Seq<char>)
    ensures
        displayed(text).len() <= text.len(),
        forall|i: int|
            0 <= i < displayed(text).len() ==> #[trigger] displayed(text)[i] == (if text[i] == '\r'
                || text[i] == '\n' || text[i] == '\t' {
                ' '
            } else {
                text[i]
            }),
        forall|i: int| displayed(text).len() <= i < text.len() ==> is_white(#[trigger] text[i]),
{
    let line = text.map_values(|c: char| on_one_line(c));
    let end = lemma_trimmed_tail(line);
    assert forall|i: int| end <= i < text.len() implies is_white(#[trigger] text[i]) by {
        assert(is_white(line[i]));
    }
}

/// A text without white space is one word, and white space between two texts puts one
/// blank between their words.
pub proof fn law_words_are_one_blank_apart(left: Seq<char>, gap: Seq<char>, right: Seq<char>)
    requires
        gap.len() > 0,
        forall|i: int| 0 <= i < gap.len() ==> is_white(#[trigger] gap[i]),
    ensures
        (forall|i: int| 0 <= i < left.len() ==> !is_white(#[trigger] left[i])) ==> squeezed(left)
            == left,
        squeezed(left + gap + right) == (if squeezed(left).len() == 0 {
            squeezed(right)
        } else if squeezed(right).len() == 0 {
            squeezed(left)
        } else {
            squeezed(left) + seq![' '] + squeezed(right)
        }),
    decreases gap.len() + right.len(),
{
    if forall|i: int| 0 <= i < left.len() ==> !is_white(#[trigger] left[i]) {
        lemma_word_stays(left);
    }
    let all = left + gap + right;
    if right.len() > 0 {
        let shorter = right.drop_last();
        law_words_are_one_blank_apart(left, gap, shorter);
        assert(all.drop_last() =~= left + gap + shorter);
        assert(all.last() == right.last());
        if shorter.len() > 0 {
            assert(all.drop_last().last() == shorter.last());
        } else {
            assert(all.drop_last().last() == gap.last());
        }
        assert(squeezed(all) =~= (if squeezed(left).len() == 0 {
            squeezed(right)
        } else if squeezed(right).len() == 0 {
            squeezed(left)
        } else {
            squeezed(left) + seq![' '] + squeezed(right)
        }));
    } else {
        assert(all =~= left + gap);
        lemma_squeezed_gap(left, gap);
    }
}

proof fn lemma_word_stays(text: Seq<char>)
    requires
        forall|i: int| 0 <= i < text.len() ==> !is_white(#[trigger] text[i]),
    ensures
        squeezed(text) == text,
    decreases text.len(),
{
    if text.len() > 0 {
        let before = text.drop_last();
        lemma_word_stays(before);
        assert(before.push(text.last()) =~= text);
        if before.len() > 0 {
            assert(!is_white(text[before.len() - 1]));
        }
    }
}

proof fn lemma_squeezed_gap(left: Seq<char>, gap: Seq<char>)
    requires
        forall|i: int| 0 <= i < gap.len() ==> is_white(#[trigger] gap[i]),
    ensures
        squeezed(left + gap) == squeezed(left),
    decreases gap.len(),
{
    if gap.len() == 0 {
        assert(left + gap =~= left);
    } else {
        assert((left + gap).drop_last() =~= left + gap.drop_last());
        lemma_squeezed_gap(left, gap.drop_last());
        assert(is_white(gap[gap.len() - 1]));
    }
}

} // verus!
