//! Plain-text helpers: line splitting, whitespace trimming and decimal
//! numbers, stated over character sequences.

use vstd::prelude::*;

verus! {

/// Whether `c` has the Unicode `White_Space` property, the definition that
/// `char::is_whitespace` and `str::trim` use.
pub open spec fn is_white_space(c: char) -> bool {
    let u = c as u32;
    ||| 0x09 <= u <= 0x0D
    ||| u == 0x20
    ||| u == 0x85
    ||| u == 0xA0
    ||| u == 0x1680
    ||| 0x2000 <= u <= 0x200A
    ||| u == 0x2028
    ||| u == 0x2029
    ||| u == 0x202F
    ||| u == 0x205F
    ||| u == 0x3000
}

/// Decides [`is_white_space`].
pub fn white_space(c: char) -> (b: bool)
    ensures
        b == is_white_space(c),
{
    let u = c as u32;
    (0x09 <= u && u <= 0x0D) || u == 0x20 || u == 0x85 || u == 0xA0 || u == 0x1680 || (0x2000
        <= u && u <= 0x200A) || u == 0x2028 || u == 0x2029 || u == 0x202F || u == 0x205F || u
        == 0x3000
}

/// `line` without its leading and trailing whitespace.
pub open spec fn trim(line: Seq<char>) -> Seq<char>
    decreases line.len(),
{
    if line.len() > 0 && is_white_space(line[0]) {
        trim(line.drop_first())
    } else if line.len() > 0 && is_white_space(line.last()) {
        trim(line.drop_last())
    } else {
        line
    }
}

/// The pieces of `text` between line feeds, in order: one more piece than
/// there are line feeds.
pub open spec fn split_lines(text: Seq<char>) -> Seq<Seq<char>>
    decreases text.len(),
{
    if text.len() == 0 {
        seq![Seq::<char>::empty()]
    } else {
        let before = split_lines(text.drop_last());
        if text.last() == '\n' {
            before.push(Seq::<char>::empty())
        } else {
            before.update(before.len() - 1, before.last().push(text.last()))
        }
    }
}

/// The non-blank lines of `text`, each trimmed, in order.
///
/// This is `text.lines().map(str::trim).filter(|line| !line.is_empty())`:
/// `lines` also strips a carriage return before each line feed, which the
/// trim removes anyway, and the empty piece after a final line feed is
/// dropped by the filter.
pub open spec fn non_blank_lines(text: Seq<char>) -> Seq<Seq<char>> {
    split_lines(text).map_values(trimming()).filter(non_blank())
}

/// [`trim`], as a function value.
pub open spec fn trimming() -> spec_fn(Seq<char>) -> Seq<char> {
    |line: Seq<char>| trim(line)
}

/// Whether a trimmed line holds anything, as a function value.
pub open spec fn non_blank() -> spec_fn(Seq<char>) -> bool {
    |line: Seq<char>| line.len() > 0
}

/// There is always at least one piece.
pub proof fn lemma_split_lines_nonempty(text: Seq<char>)
    ensures
        split_lines(text).len() >= 1,
    decreases text.len(),
{
    if text.len() > 0 {
        lemma_split_lines_nonempty(text.drop_last());
    }
}

/// Text without a line feed is a single piece.
pub proof fn lemma_split_single_line(line: Seq<char>)
    requires
        !line.contains('\n'),
    ensures
        split_lines(line) == seq![line],
    decreases line.len(),
{
    if line.len() > 0 {
        assert(!line.drop_last().contains('\n')) by {
            if line.drop_last().contains('\n') {
                let i = choose|i: int| 0 <= i < line.drop_last().len() && line.drop_last()[i] == '\n';
                assert(line[i] == '\n');
            }
        }
        lemma_split_single_line(line.drop_last());
        assert(line.last() != '\n') by {
            assert(line[line.len() - 1] == line.last());
        }
        assert(line.drop_last().push(line.last()) == line);
        assert(split_lines(line) =~= seq![line]);
    } else {
        assert(line =~= Seq::<char>::empty());
        assert(split_lines(line) =~= seq![line]);
    }
}

/// A line feed after a first line splits that line off the rest of the text.
pub proof fn lemma_split_after_first_line(first: Seq<char>, rest: Seq<char>)
    requires
        !first.contains('\n'),
    ensures
        split_lines(first.push('\n') + rest) == seq![first] + split_lines(rest),
    decreases rest.len(),
{
    let text = first.push('\n') + rest;
    if rest.len() == 0 {
        lemma_split_single_line(first);
        assert(text == first.push('\n'));
        assert(text.drop_last() == first);
        assert(split_lines(text) =~~= seq![first] + split_lines(rest));
    } else {
        lemma_split_after_first_line(first, rest.drop_last());
        lemma_split_lines_nonempty(rest.drop_last());
        assert(text.drop_last() == first.push('\n') + rest.drop_last());
        assert(text.last() == rest.last());
        let before = split_lines(rest.drop_last());
        if rest.last() == '\n' {
            assert(split_lines(text) =~~= seq![first] + split_lines(rest));
        } else {
            assert(split_lines(rest) == before.update(before.len() - 1, before.last().push(rest.last())));
            assert(split_lines(text) =~~= seq![first] + split_lines(rest));
        }
    }
}

/// A non-blank first line, then a line feed, adds that line, trimmed, in front
/// of the rest's non-blank lines.
pub proof fn lemma_non_blank_after_first_line(first: Seq<char>, rest: Seq<char>)
    requires
        !first.contains('\n'),
        trim(first).len() > 0,
    ensures
        non_blank_lines(first.push('\n') + rest) == seq![trim(first)] + non_blank_lines(rest),
{
    lemma_split_after_first_line(first, rest);
    let pieces = split_lines(rest);
    assert((seq![first] + pieces).map_values(trimming()) =~= seq![trim(first)] + pieces.map_values(trimming()));
    Seq::filter_distributes_over_add(seq![trim(first)], pieces.map_values(trimming()), non_blank());
    reveal_with_fuel(Seq::filter, 2);
    assert(seq![trim(first)].drop_last() =~= Seq::<Seq<char>>::empty());
    assert(seq![trim(first)].filter(non_blank()) == seq![trim(first)]);
}

/// A line feed between two texts splits them: the pieces of the first, then
/// those of the second.
pub proof fn lemma_split_lines_concat(first: Seq<char>, rest: Seq<char>)
    ensures
        split_lines(first.push('\n') + rest) == split_lines(first) + split_lines(rest),
    decreases rest.len(),
{
    let text = first.push('\n') + rest;
    lemma_split_lines_nonempty(first);
    if rest.len() == 0 {
        assert(text == first.push('\n'));
        assert(text.drop_last() == first);
        assert(split_lines(text) =~~= split_lines(first) + split_lines(rest));
    } else {
        lemma_split_lines_concat(first, rest.drop_last());
        lemma_split_lines_nonempty(rest.drop_last());
        assert(text.drop_last() == first.push('\n') + rest.drop_last());
        assert(text.last() == rest.last());
        let before = split_lines(rest.drop_last());
        if rest.last() == '\n' {
            assert(split_lines(text) =~~= split_lines(first) + split_lines(rest));
        } else {
            assert(split_lines(rest) == before.update(before.len() - 1, before.last().push(rest.last())));
            assert(split_lines(text) =~~= split_lines(first) + split_lines(rest));
        }
    }
}

/// A line feed between two texts concatenates their non-blank lines.
pub proof fn lemma_non_blank_lines_concat(first: Seq<char>, rest: Seq<char>)
    ensures
        non_blank_lines(first.push('\n') + rest) == non_blank_lines(first) + non_blank_lines(rest),
{
    lemma_split_lines_concat(first, rest);
    let a = split_lines(first);
    let b = split_lines(rest);
    assert((a + b).map_values(trimming()) =~= a.map_values(trimming()) + b.map_values(trimming()));
    Seq::filter_distributes_over_add(a.map_values(trimming()), b.map_values(trimming()), non_blank());
}

/// Text without a non-blank line.
pub proof fn lemma_non_blank_lines_of_nothing()
    ensures
        non_blank_lines(Seq::<char>::empty()) == Seq::<Seq<char>>::empty(),
{
    let pieces = split_lines(Seq::<char>::empty());
    assert(pieces =~~= seq![Seq::<char>::empty()]);
    assert(pieces.map_values(trimming()) =~~= seq![Seq::<char>::empty()]);
    reveal_with_fuel(Seq::filter, 2);
    assert(seq![Seq::<char>::empty()].drop_last() =~= Seq::<Seq<char>>::empty());
}

/// Whitespace before a line does not survive trimming.
proof fn lemma_trim_white_space_front(c: char, line: Seq<char>)
    requires
        is_white_space(c),
    ensures
        trim(seq![c] + line) == trim(line),
{
    let text = seq![c] + line;
    assert(text[0] == c);
    assert(text.drop_first() == line);
}

/// Whitespace after a line does not survive trimming.
proof fn lemma_trim_white_space_back(line: Seq<char>, c: char)
    requires
        is_white_space(c),
    ensures
        trim(line.push(c)) == trim(line),
    decreases line.len(),
{
    let text = line.push(c);
    if line.len() == 0 {
        assert(text.drop_first() =~= line);
    } else if is_white_space(line[0]) {
        lemma_trim_white_space_back(line.drop_first(), c);
        assert(text.drop_first() == line.drop_first().push(c));
    } else {
        assert(text.drop_last() == line);
    }
}

/// A character other than a line feed in front of a text joins its first piece.
proof fn lemma_split_lines_prepend(c: char, text: Seq<char>)
    requires
        c != '\n',
    ensures
        split_lines(seq![c] + text) == split_lines(text).update(0, seq![c] + split_lines(text)[0]),
    decreases text.len(),
{
    let whole = seq![c] + text;
    lemma_split_lines_nonempty(text);
    if text.len() == 0 {
        assert(text =~= Seq::<char>::empty());
        assert(whole =~= seq![c]);
        assert(whole.drop_last() =~= Seq::<char>::empty());
        assert(whole.last() == c);
        let empty_pieces = split_lines(Seq::<char>::empty());
        assert(empty_pieces =~~= seq![Seq::<char>::empty()]);
        assert(split_lines(whole) == empty_pieces.update(0, empty_pieces[0].push(c)));
        assert(Seq::<char>::empty().push(c) =~= seq![c] + Seq::<char>::empty());
        assert(split_lines(whole) =~~= split_lines(text).update(0, seq![c] + split_lines(text)[0]));
    } else {
        lemma_split_lines_prepend(c, text.drop_last());
        lemma_split_lines_nonempty(text.drop_last());
        assert(whole.drop_last() == seq![c] + text.drop_last());
        assert(whole.last() == text.last());
        let before = split_lines(text.drop_last());
        if text.last() == '\n' {
            assert(split_lines(whole) =~~= split_lines(text).update(0, seq![c] + split_lines(text)[0]));
        } else {
            assert(split_lines(text) == before.update(before.len() - 1, before.last().push(text.last())));
            if before.len() == 1 {
                assert(split_lines(whole) =~~= split_lines(text).update(
                    0,
                    seq![c] + split_lines(text)[0],
                ));
            } else {
                assert(split_lines(whole) =~~= split_lines(text).update(
                    0,
                    seq![c] + split_lines(text)[0],
                ));
            }
        }
    }
}

/// Whether every character of `text` is whitespace (line feeds included).
pub open spec fn all_white_space(text: Seq<char>) -> bool {
    forall|i: int| 0 <= i < text.len() ==> is_white_space(#[trigger] text[i])
}

/// Whitespace, line feeds included, in front of a text adds no non-blank line.
proof fn lemma_non_blank_lines_leading(pad: Seq<char>, text: Seq<char>)
    requires
        all_white_space(pad),
    ensures
        non_blank_lines(pad + text) == non_blank_lines(text),
    decreases pad.len(),
{
    if pad.len() == 0 {
        assert(pad + text == text);
    } else {
        let c = pad[0];
        let rest = pad.drop_first();
        assert(all_white_space(rest)) by {
            assert forall|i: int| 0 <= i < rest.len() implies is_white_space(#[trigger] rest[i]) by {
                assert(rest[i] == pad[i + 1]);
            }
        }
        lemma_non_blank_lines_leading(rest, text);
        let tail = rest + text;
        assert(pad + text == seq![c] + tail);
        if c == '\n' {
            assert(seq![c] + tail == Seq::<char>::empty().push('\n') + tail);
            lemma_non_blank_lines_concat(Seq::<char>::empty(), tail);
            lemma_non_blank_lines_of_nothing();
            assert(Seq::<Seq<char>>::empty() + non_blank_lines(tail) == non_blank_lines(tail));
        } else {
            lemma_split_lines_prepend(c, tail);
            lemma_split_lines_nonempty(tail);
            let pieces = split_lines(tail);
            lemma_trim_white_space_front(c, pieces[0]);
            assert(split_lines(seq![c] + tail).map_values(trimming()) =~~= pieces.map_values(
                trimming(),
            ));
        }
    }
}

/// Whitespace, line feeds included, after a text adds no non-blank line.
proof fn lemma_non_blank_lines_trailing(text: Seq<char>, pad: Seq<char>)
    requires
        all_white_space(pad),
    ensures
        non_blank_lines(text + pad) == non_blank_lines(text),
    decreases pad.len(),
{
    if pad.len() == 0 {
        assert(text + pad == text);
    } else {
        let c = pad.last();
        let rest = pad.drop_last();
        assert(all_white_space(rest)) by {
            assert forall|i: int| 0 <= i < rest.len() implies is_white_space(#[trigger] rest[i]) by {
                assert(rest[i] == pad[i]);
            }
        }
        assert(is_white_space(c)) by {
            assert(c == pad[pad.len() - 1]);
        }
        lemma_non_blank_lines_trailing(text, rest);
        let head = text + rest;
        let whole = text + pad;
        assert(whole.drop_last() == head);
        assert(whole.last() == c);
        lemma_split_lines_nonempty(head);
        let pieces = split_lines(head);
        if c == '\n' {
            pieces.lemma_push_map_commute(trimming(), Seq::<char>::empty());
            pieces.map_values(trimming()).lemma_filter_push(trim(Seq::<char>::empty()), non_blank());
        } else {
            lemma_trim_white_space_back(pieces.last(), c);
            assert(split_lines(whole).map_values(trimming()) =~~= pieces.map_values(trimming()));
        }
    }
}

/// Whitespace before and after a text, line feeds included, changes none of
/// its non-blank lines.
pub proof fn lemma_white_space_padding_is_ignored(
    before: Seq<char>,
    text: Seq<char>,
    after: Seq<char>,
)
    requires
        all_white_space(before),
        all_white_space(after),
    ensures
        non_blank_lines(before + text + after) == non_blank_lines(text),
{
    lemma_non_blank_lines_leading(before, text + after);
    lemma_non_blank_lines_trailing(text, after);
    assert(before + text + after == before + (text + after));
}

/// The digit character for `d`.
pub open spec fn digit_char(d: nat) -> char {
    (48 + d) as char
}

/// The decimal representation of `n`, most significant digit first, without
/// leading zeros.
pub open spec fn decimal(n: nat) -> Seq<char>
    decreases n,
{
    if n < 10 {
        seq![digit_char(n)]
    } else {
        decimal(n / 10).push(digit_char(n % 10))
    }
}

/// The one-character text of digit `d`.
fn digit_text(d: usize) -> (text: &'static str)
    requires
        d < 10,
    ensures
        text@ == seq![digit_char(d as nat)],
{
    if d == 0 {
        proof { reveal_strlit("0"); }
        "0"
    } else if d == 1 {
        proof { reveal_strlit("1"); }
        "1"
    } else if d == 2 {
        proof { reveal_strlit("2"); }
        "2"
    } else if d == 3 {
        proof { reveal_strlit("3"); }
        "3"
    } else if d == 4 {
        proof { reveal_strlit("4"); }
        "4"
    } else if d == 5 {
        proof { reveal_strlit("5"); }
        "5"
    } else if d == 6 {
        proof { reveal_strlit("6"); }
        "6"
    } else if d == 7 {
        proof { reveal_strlit("7"); }
        "7"
    } else if d == 8 {
        proof { reveal_strlit("8"); }
        "8"
    } else {
        proof { reveal_strlit("9"); }
        "9"
    }
}

/// Appends the decimal representation of `n` to `text`.
pub fn push_decimal(text: &mut String, n: usize)
    ensures
        final(text)@ == old(text)@ + decimal(n as nat),
    decreases n,
{
    if n >= 10 {
        push_decimal(text, n / 10);
    }
    text.append(digit_text(n % 10));
}

/// The characters of `text`, in order.
pub fn chars_of(text: &str) -> (chars: Vec<char>)
    ensures
        chars@ == text@,
{
    let mut chars: Vec<char> = Vec::new();
    for c in it: text.chars()
        invariant
            it.seq() == text@,
            chars@ == text@.take(it.index() as int),
    {
        chars.push(c);
        assert(chars@ == text@.take(it.index() as int + 1));
    }
    assert(text@.take(text@.len() as int) == text@);
    chars
}

/// Bounds of `trim(chars[start..end])` within `chars`.
fn trim_bounds(chars: &Vec<char>, start: usize, end: usize) -> (bounds: (usize, usize))
    requires
        start <= end <= chars@.len(),
    ensures
        start <= bounds.0 <= bounds.1 <= end,
        chars@.subrange(bounds.0 as int, bounds.1 as int) == trim(
            chars@.subrange(start as int, end as int),
        ),
{
    let mut a = start;
    while a < end && white_space(chars[a])
        invariant
            start <= a <= end <= chars@.len(),
            trim(chars@.subrange(start as int, end as int)) == trim(
                chars@.subrange(a as int, end as int),
            ),
        decreases end - a,
    {
        assert(chars@.subrange(a as int, end as int).drop_first() == chars@.subrange(
            a + 1,
            end as int,
        ));
        a = a + 1;
    }
    let mut b = end;
    while b > a && white_space(chars[b - 1])
        invariant
            start <= a <= b <= end <= chars@.len(),
            a < b ==> !is_white_space(chars@[a as int]),
            trim(chars@.subrange(start as int, end as int)) == trim(
                chars@.subrange(a as int, b as int),
            ),
        decreases b - a,
    {
        assert(chars@.subrange(a as int, b as int).drop_last() == chars@.subrange(
            a as int,
            b - 1,
        ));
        b = b - 1;
    }
    (a, b)
}

/// Bounds, within `chars`, of each of its non-blank lines, in order.
pub fn non_blank_line_bounds(chars: &Vec<char>) -> (bounds: Vec<(usize, usize)>)
    ensures
        bounds@.len() == non_blank_lines(chars@).len(),
        forall|i: int|
            0 <= i < bounds@.len() ==> (#[trigger] bounds@[i]).0 <= bounds@[i].1 <= chars@.len()
                && chars@.subrange(bounds@[i].0 as int, bounds@[i].1 as int)
                == non_blank_lines(chars@)[i],
{
    let ghost text = chars@;
    let ghost keep = non_blank();
    let ghost trimmed = trimming();
    let n = chars.len();
    let mut bounds: Vec<(usize, usize)> = Vec::new();
    let ghost mut done: Seq<Seq<char>> = Seq::empty();
    let mut start: usize = 0;
    let mut i: usize = 0;
    assert(text.take(0) =~= Seq::<char>::empty());
    assert(text.subrange(0, 0) =~= Seq::<char>::empty());
    assert(split_lines(text.take(0)) =~~= done.push(text.subrange(0, 0)));
    while i < n
        invariant
            n == text.len(),
            chars@ == text,
            keep == non_blank(),
            trimmed == trimming(),
            start <= i <= n,
            split_lines(text.take(i as int)) == done.push(text.subrange(start as int, i as int)),
            bounds@.len() == done.map_values(trimmed).filter(keep).len(),
            forall|m: int|
                0 <= m < bounds@.len() ==> (#[trigger] bounds@[m]).0 <= bounds@[m].1 <= start
                    && text.subrange(bounds@[m].0 as int, bounds@[m].1 as int) == done.map_values(
                    trimmed,
                ).filter(keep)[m],
        decreases n - i,
    {
        let ghost prefix = text.take(i as int);
        assert(text.take(i + 1).drop_last() == prefix);
        assert(text.take(i + 1).last() == text[i as int]);
        if chars[i] == '\n' {
            let (a, b) = trim_bounds(chars, start, i);
            let ghost piece = text.subrange(start as int, i as int);
            proof {
                done.lemma_push_map_commute(trimmed, piece);
                done.map_values(trimmed).lemma_filter_push(trim(piece), keep);
                assert(trimmed(piece) == trim(piece));
                assert(keep(trim(piece)) == (a < b));
                assert(split_lines(text.take(i + 1)) == split_lines(prefix).push(Seq::<char>::empty()));
                assert(text.subrange(i + 1, i + 1) =~= Seq::<char>::empty());
            }
            if a < b {
                bounds.push((a, b));
            }
            proof {
                done = done.push(piece);
            }
            start = i + 1;
        } else {
            proof {
                let before = split_lines(prefix);
                assert(split_lines(text.take(i + 1)) == before.update(
                    before.len() - 1,
                    before.last().push(text[i as int]),
                ));
                assert(text.subrange(start as int, i + 1) == text.subrange(start as int, i as int).push(
                    text[i as int],
                ));
                assert(split_lines(text.take(i + 1)) =~= done.push(text.subrange(start as int, i + 1)));
            }
        }
        i = i + 1;
    }
    let (a, b) = trim_bounds(chars, start, n);
    let ghost piece = text.subrange(start as int, n as int);
    proof {
        done.lemma_push_map_commute(trimmed, piece);
        done.map_values(trimmed).lemma_filter_push(trim(piece), keep);
        assert(trimmed(piece) == trim(piece));
        assert(keep(trim(piece)) == (a < b));
        assert(text.take(n as int) == text);
        assert(non_blank_lines(text) == done.push(piece).map_values(trimmed).filter(keep));
    }
    if a < b {
        bounds.push((a, b));
    }
    bounds
}

} // verus!
