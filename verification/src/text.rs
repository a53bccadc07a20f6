//! Operations on text, stated over the sequence of its characters.

use vstd::prelude::*;
use vstd::string::*;

verus! {

/// Adds one character at the end: `String::push` does exactly that.
pub assume_specification[ String::push ](buffer: &mut String, character: char)
    ensures
        final(buffer)@ == old(buffer)@.push(character),
;

/// Whether two texts hold the same characters.
pub fn same(a: &str, b: &str) -> (r: bool)
    ensures
        r == (a@ == b@),
{
    let x: &[u8] = a.as_bytes();
    let y: &[u8] = b.as_bytes();
    proof {
        vstd::utf8::encode_utf8_decode_utf8(a@);
        vstd::utf8::encode_utf8_decode_utf8(b@);
    }
    if x.len() != y.len() {
        return false;
    }
    let mut i: usize = 0;
    while i < x.len()
        invariant
            i <= x@.len(),
            x@.len() == y@.len(),
            x@ == a.spec_bytes(),
            y@ == b.spec_bytes(),
            forall|k: int| 0 <= k < i ==> x@[k] == y@[k],
        decreases x@.len() - i,
    {
        if x[i] != y[i] {
            return false;
        }
        i = i + 1;
    }
    assert(x@ =~= y@);
    true
}

/// The characters of a text, one by one.
pub fn chars(s: &str) -> (r: Vec<char>)
    ensures
        r@ == s@,
{
    let mut out: Vec<char> = Vec::new();
    for c in it: s.chars()
        invariant
            out@ == it.seq().take(it.index()),
            it.seq() == s@,
    {
        out.push(c);
    }
    out
}

/// Whether a text has no characters.
pub fn is_empty(s: &str) -> (r: bool)
    ensures
        r == (s@.len() == 0),
{
    proof {
        reveal_strlit("");
    }
    let r: bool = same(s, "");
    assert(s@.len() == 0 ==> s@ =~= ""@);
    r
}

// ── Searching ───────────────────────────────────────────────────────────────

/// `pat` stands in `s` at position `i`.
pub open spec fn stands_at(s: Seq<char>, pat: Seq<char>, i: int) -> bool {
    0 <= i && i + pat.len() <= s.len() && s.subrange(i, i + pat.len()) == pat
}

/// `pat` stands somewhere in `s`.
pub open spec fn contains_text(s: Seq<char>, pat: Seq<char>) -> bool {
    exists|i: int| stands_at(s, pat, i)
}

fn stands_here(s: &Vec<char>, pat: &Vec<char>, at: usize) -> (r: bool)
    requires
        at <= s@.len(),
    ensures
        r == stands_at(s@, pat@, at as int),
{
    if s.len() - at < pat.len() {
        return false;
    }
    let n: usize = s.len();
    let mut k: usize = 0;
    while k < pat.len()
        invariant
            n == s@.len(),
            k <= pat@.len(),
            at + pat@.len() <= s@.len(),
            forall|j: int| 0 <= j < k ==> s@[at + j] == pat@[j],
        decreases pat@.len() - k,
    {
        if s[at + k] != pat[k] {
            assert(s@.subrange(at as int, at + pat@.len())[k as int] != pat@[k as int]);
            return false;
        }
        k = k + 1;
    }
    assert(s@.subrange(at as int, at + pat@.len()) =~= pat@);
    true
}

/// Whether `pat` occurs in `s`.
pub fn contains(s: &str, pat: &str) -> (r: bool)
    ensures
        r == contains_text(s@, pat@),
{
    let cs: Vec<char> = chars(s);
    let ps: Vec<char> = chars(pat);
    let mut i: usize = 0;
    loop
        invariant
            cs@ == s@,
            ps@ == pat@,
            i <= cs@.len(),
            forall|j: int| 0 <= j < i ==> !stands_at(s@, pat@, j),
        decreases cs@.len() - i,
    {
        if stands_here(&cs, &ps, i) {
            return true;
        }
        if i == cs.len() {
            return false;
        }
        i = i + 1;
    }
}

/// What follows `prefix` at the start of `s`.
pub open spec fn after_prefix(s: Seq<char>, prefix: Seq<char>) -> Option<Seq<char>> {
    if stands_at(s, prefix, 0) {
        Some(s.subrange(prefix.len() as int, s.len() as int))
    } else {
        None
    }
}

/// The rest of `s` behind `prefix`, if it starts with it.
pub fn strip_prefix<'a>(s: &'a str, prefix: &str) -> (r: Option<&'a str>)
    ensures
        (match r {
            Some(rest) => after_prefix(s@, prefix@) == Some(rest@),
            None => after_prefix(s@, prefix@) is None,
        }),
{
    let cs: Vec<char> = chars(s);
    let ps: Vec<char> = chars(prefix);
    if stands_here(&cs, &ps, 0) {
        Some(s.substring_char(ps.len(), cs.len()))
    } else {
        None
    }
}

/// The characters of `s` before the first `sep`; all of them if there is none.
pub open spec fn until(s: Seq<char>, sep: char) -> Seq<char>
    decreases s.len(),
{
    if s.len() == 0 || s[0] == sep {
        Seq::empty()
    } else {
        seq![s[0]] + until(s.drop_first(), sep)
    }
}

proof fn lemma_until(s: Seq<char>, sep: char, n: int)
    requires
        0 <= n <= s.len(),
        forall|i: int| 0 <= i < n ==> s[i] != sep,
        n < s.len() ==> s[n] == sep,
    ensures
        until(s, sep) == s.take(n),
    decreases s.len(),
{
    if n == 0 {
        assert(s.take(0) =~= Seq::<char>::empty());
    } else {
        lemma_until(s.drop_first(), sep, n - 1);
        assert(s.take(n) =~= seq![s[0]] + s.drop_first().take(n - 1));
    }
}

/// The part of `s` before the first `sep`.
pub fn before<'a>(s: &'a str, sep: char) -> (r: &'a str)
    ensures
        r@ == until(s@, sep),
{
    let cs: Vec<char> = chars(s);
    let mut i: usize = 0;
    while i < cs.len() && cs[i] != sep
        invariant
            cs@ == s@,
            i <= cs@.len(),
            forall|j: int| 0 <= j < i ==> s@[j] != sep,
        decreases cs@.len() - i,
    {
        i = i + 1;
    }
    proof {
        lemma_until(s@, sep, i as int);
    }
    s.substring_char(0, i)
}

/// The parts of `s` between the separators: one more than there are of them.
pub open spec fn split_text(s: Seq<char>, sep: char) -> Seq<Seq<char>>
    decreases s.len(),
{
    if s.len() == 0 {
        seq![Seq::empty()]
    } else {
        let head = split_text(s.drop_last(), sep);
        if s.last() == sep {
            head.push(Seq::empty())
        } else {
            head.drop_last().push(head.last().push(s.last()))
        }
    }
}

/// What the texts hold.
pub open spec fn slices(v: Seq<&str>) -> Seq<Seq<char>> {
    v.map_values(|s: &str| s@)
}

/// The parts of `s` between the separators.
pub fn split<'a>(s: &'a str, sep: char) -> (r: Vec<&'a str>)
    ensures
        slices(r@) == split_text(s@, sep),
        r@.len() > 0,
{
    let cs: Vec<char> = chars(s);
    let mut out: Vec<&'a str> = Vec::new();
    let mut from: usize = 0;
    let mut i: usize = 0;
    assert(s@.take(0) =~= Seq::empty());
    assert(slices(out@).push(s@.subrange(0, 0)) =~= split_text(s@.take(0), sep));
    while i < cs.len()
        invariant
            cs@ == s@,
            from <= i <= cs@.len(),
            slices(out@).push(s@.subrange(from as int, i as int)) == split_text(
                s@.take(i as int),
                sep,
            ),
        decreases cs@.len() - i,
    {
        let ghost head = split_text(s@.take(i as int), sep);
        let ghost before = out@;
        assert(s@.take(i + 1).drop_last() =~= s@.take(i as int));
        assert(s@.take(i + 1).last() == s@[i as int]);
        if cs[i] == sep {
            let part: &'a str = s.substring_char(from, i);
            out.push(part);
            from = i + 1;
            assert(slices(out@) =~= slices(before).push(part@));
            assert(s@.subrange(i + 1, i + 1) =~= Seq::empty());
        } else {
            assert(s@.subrange(from as int, i + 1) =~= s@.subrange(from as int, i as int).push(
                s@[i as int],
            ));
            assert(head.drop_last() =~= slices(out@));
        }
        i = i + 1;
    }
    let ghost before = out@;
    let last: &'a str = s.substring_char(from, cs.len());
    out.push(last);
    assert(slices(out@) =~= slices(before).push(last@));
    assert(s@.take(s@.len() as int) =~= s@);
    out
}

/// `s` without the carriage return at its end, where it has one.
pub open spec fn without_cr(s: Seq<char>) -> Seq<char> {
    if s.len() > 0 && s.last() == '\r' {
        s.drop_last()
    } else {
        s
    }
}

/// The lines of `s`: what stands before, between and behind the line feeds. A
/// carriage return directly before a line feed belongs to the line feed.
pub open spec fn lines_of(s: Seq<char>) -> Seq<Seq<char>> {
    let parts = split_text(s, '\n');
    parts.drop_last().map_values(|l: Seq<char>| without_cr(l)).push(parts.last())
}

fn strip_cr<'a>(s: &'a str) -> (r: &'a str)
    ensures
        r@ == without_cr(s@),
{
    let cs: Vec<char> = chars(s);
    let n: usize = cs.len();
    if n > 0 && cs[n - 1] == '\r' {
        s.substring_char(0, n - 1)
    } else {
        s
    }
}

/// The lines of `s`, the last one also where it is empty.
pub fn lines<'a>(s: &'a str) -> (r: Vec<&'a str>)
    ensures
        slices(r@) == lines_of(s@),
{
    let parts: Vec<&'a str> = split(s, '\n');
    let ghost all = split_text(s@, '\n');
    let ghost want = lines_of(s@);
    let mut out: Vec<&'a str> = Vec::new();
    let n: usize = parts.len();
    let mut i: usize = 0;
    while i < n
        invariant
            n == parts@.len(),
            n > 0,
            all == split_text(s@, '\n'),
            slices(parts@) == all,
            want == lines_of(s@),
            i <= n,
            slices(out@) == want.take(i as int),
        decreases n - i,
    {
        let ghost before = out@;
        assert(all[i as int] == parts@[i as int]@);
        let line: &'a str = if i + 1 < n {
            strip_cr(parts[i])
        } else {
            parts[i]
        };
        out.push(line);
        assert(want[i as int] == line@);
        assert(slices(out@) =~= slices(before).push(line@));
        assert(want.take(i + 1) =~= want.take(i as int).push(want[i as int]));
        i = i + 1;
    }
    assert(want.take(n as int) =~= want);
    out
}

/// What stands before the first separator is what stands before it, whatever
/// follows; a text without a separator is taken whole.
pub proof fn law_until_stops_at_the_first(a: Seq<char>, sep: char, b: Seq<char>)
    requires
        !a.contains(sep),
    ensures
        until(a + seq![sep] + b, sep) == a,
        until(a, sep) == a,
{
    let s = a + seq![sep] + b;
    assert forall|i: int| 0 <= i < a.len() implies s[i] != sep by {
        assert(a.contains(a[i]));
    }
    assert forall|i: int| 0 <= i < a.len() implies a[i] != sep by {
        assert(a.contains(a[i]));
    }
    lemma_until(s, sep, a.len() as int);
    assert(s.take(a.len() as int) =~= a);
    lemma_until(a, sep, a.len() as int);
    assert(a.take(a.len() as int) =~= a);
}

/// What follows a prefix is what was put behind it, and a text that has something
/// behind a prefix is the prefix and that.
pub proof fn law_prefix_and_rest(s: Seq<char>, prefix: Seq<char>, rest: Seq<char>)
    ensures
        (after_prefix(s, prefix) == Some(rest)) == (s == prefix + rest),
{
    if s == prefix + rest {
        assert(s.subrange(0, prefix.len() as int) =~= prefix);
        assert(s.subrange(prefix.len() as int, s.len() as int) =~= rest);
    }
    if after_prefix(s, prefix) == Some(rest) {
        assert(s =~= s.subrange(0, prefix.len() as int) + s.subrange(
            prefix.len() as int,
            s.len() as int,
        ));
    }
}

/// The parts of a text between separators hold none, and with a separator
/// between each two of them they are the text.
pub proof fn law_parts_join_to_the_text(s: Seq<char>, sep: char)
    ensures
        split_text(s, sep).len() > 0,
        forall|i: int|
            0 <= i < split_text(s, sep).len() ==> !(#[trigger] split_text(s, sep)[i]).contains(sep),
        joined_by(split_text(s, sep), sep) == s,
    decreases s.len(),
{
    let parts = split_text(s, sep);
    reveal_with_fuel(joined_by, 2);
    if s.len() == 0 {
        assert(joined_by(parts, sep) =~= s);
    } else {
        let front = s.drop_last();
        law_parts_join_to_the_text(front, sep);
        let head = split_text(front, sep);
        let c = s.last();
        if c == sep {
            assert(parts.drop_last() =~= head);
            assert(joined_by(parts, sep) =~= s);
        } else {
            assert forall|i: int| 0 <= i < parts.len() implies !(#[trigger] parts[i]).contains(
                sep,
            ) by {
                if i < parts.len() - 1 {
                    assert(parts[i] == head[i]);
                } else {
                    let old = head.last();
                    assert(old == head[head.len() - 1]);
                    assert forall|k: int| 0 <= k < parts[i].len() implies parts[i][k] != sep by {
                        if k < old.len() {
                            assert(parts[i][k] == old[k]);
                            assert(old.contains(old[k]));
                        }
                    }
                }
            }
            assert(parts.drop_last() =~= head.drop_last());
            assert(joined_by(parts, sep) =~= joined_by(head, sep).push(c));
            assert(joined_by(parts, sep) =~= s);
        }
    }
}

/// The parts with a separator between each two of them.
pub open spec fn joined_by(parts: Seq<Seq<char>>, sep: char) -> Seq<char>
    decreases parts.len(),
{
    if parts.len() == 0 {
        Seq::empty()
    } else if parts.len() == 1 {
        parts[0]
    } else {
        joined_by(parts.drop_last(), sep).push(sep) + parts.last()
    }
}

proof fn lemma_split_longer(s: Seq<char>, b: Seq<char>, sep: char)
    requires
        !b.contains(sep),
    ensures
        split_text(s + b, sep) == split_text(s, sep).drop_last().push(
            split_text(s, sep).last() + b,
        ),
    decreases b.len(),
{
    law_parts_join_to_the_text(s, sep);
    let parts = split_text(s, sep);
    if b.len() == 0 {
        assert(s + b =~= s);
        assert(parts.last() + b =~= parts.last());
        assert(parts.drop_last().push(parts.last()) =~= parts);
    } else {
        let c = b.last();
        let front = b.drop_last();
        assert(b.contains(b[b.len() - 1]));
        assert forall|i: int| 0 <= i < front.len() implies front[i] != sep by {
            assert(b.contains(b[i]));
        }
        lemma_split_longer(s, front, sep);
        assert((s + b).drop_last() =~= s + front);
        let head = split_text(s + front, sep);
        assert(head.last() == parts.last() + front);
        assert((parts.last() + front).push(c) =~= parts.last() + b);
        assert(head.drop_last() =~= parts.drop_last());
    }
}

/// A text that is put together of parts without separators, with a separator
/// between each two of them, is taken apart into these parts.
pub proof fn law_joined_parts_are_taken_apart(parts: Seq<Seq<char>>, sep: char)
    requires
        parts.len() > 0,
        forall|i: int| 0 <= i < parts.len() ==> !(#[trigger] parts[i]).contains(sep),
    ensures
        split_text(joined_by(parts, sep), sep) == parts,
    decreases parts.len(),
{
    let none = Seq::<char>::empty();
    if parts.len() == 1 {
        lemma_split_longer(none, parts[0], sep);
        assert(none + parts[0] =~= parts[0]);
        assert(split_text(parts[0], sep) =~= parts);
    } else {
        let head = parts.drop_last();
        let b = parts.last();
        assert(b == parts[parts.len() - 1]);
        assert forall|i: int| 0 <= i < head.len() implies !(#[trigger] head[i]).contains(sep) by {
            assert(head[i] == parts[i]);
        }
        law_joined_parts_are_taken_apart(head, sep);
        let s = joined_by(head, sep).push(sep);
        assert(s.drop_last() =~= joined_by(head, sep));
        assert(split_text(s, sep) == head.push(none));
        lemma_split_longer(s, b, sep);
        assert(head.push(none).drop_last() =~= head);
        assert(none + b =~= b);
        assert(head.push(b) =~= parts);
    }
}

/// Lines are what stands between line feeds. A carriage return before a line
/// feed is no part of the line, any other is.
pub proof fn law_lines_stand_between_line_feeds(parts: Seq<Seq<char>>, i: int)
    requires
        parts.len() > 0,
        forall|i: int| 0 <= i < parts.len() ==> !(#[trigger] parts[i]).contains('\n'),
        0 <= i < parts.len(),
    ensures
        lines_of(joined_by(parts, '\n')).len() == parts.len(),
        i == parts.len() - 1 || parts[i].len() == 0 || parts[i].last() != '\r' ==> lines_of(
            joined_by(parts, '\n'),
        )[i] == parts[i],
        forall|line: Seq<char>|
            i < parts.len() - 1 && parts[i] == #[trigger] line.push('\r') ==> lines_of(
                joined_by(parts, '\n'),
            )[i] == line,
{
    law_joined_parts_are_taken_apart(parts, '\n');
    assert forall|line: Seq<char>|
        i < parts.len() - 1 && parts[i] == #[trigger] line.push('\r') implies lines_of(
        joined_by(parts, '\n'),
    )[i] == line by {
        assert(line.push('\r').drop_last() =~= line);
    }
}

// ── White space ─────────────────────────────────────────────────────────────

/// The characters with the Unicode property `White_Space`.
#[verifier::opaque]
pub open spec fn is_space(c: char) -> bool {
    ||| '\u{9}' <= c <= '\u{d}'
    ||| c == ' '
    ||| c == '\u{85}'
    ||| c == '\u{a0}'
    ||| c == '\u{1680}'
    ||| '\u{2000}' <= c <= '\u{200a}'
    ||| c == '\u{2028}'
    ||| c == '\u{2029}'
    ||| c == '\u{202f}'
    ||| c == '\u{205f}'
    ||| c == '\u{3000}'
}

/// White space are the tabs and line ends from 9 to 13, the blank, the next line
/// and the blanks of other scripts and widths; a letter, a digit or a sign of
/// ASCII is none.
pub proof fn law_white_space_by_its_code(c: char)
    ensures
        ({
            let n = c as int;
            is_space(c) <==> (9 <= n <= 13 || n == 32 || n == 133 || n == 160 || n == 5_760 || 8_192
                <= n <= 8_202 || n == 8_232 || n == 8_233 || n == 8_239 || n == 8_287 || n
                == 12_288)
        }),
{
    reveal(is_space);
}

fn space(c: char) -> (r: bool)
    ensures
        r == is_space(c),
{
    reveal(is_space);
    ('\u{9}' <= c && c <= '\u{d}') || c == ' ' || c == '\u{85}' || c == '\u{a0}' || c == '\u{1680}'
        || ('\u{2000}' <= c && c <= '\u{200a}') || c == '\u{2028}' || c == '\u{2029}' || c
        == '\u{202f}' || c == '\u{205f}' || c == '\u{3000}'
}

/// `t` is `s` without the white space around it.
pub open spec fn trimmed(s: Seq<char>) -> Seq<char>
    decreases s.len(),
{
    if s.len() == 0 {
        s
    } else if is_space(s[0]) {
        trimmed(s.drop_first())
    } else if is_space(s.last()) {
        trimmed(s.drop_last())
    } else {
        s
    }
}

/// `s` without leading and trailing white space.
pub fn trim<'a>(s: &'a str) -> (r: &'a str)
    ensures
        r@ == trimmed(s@),
{
    let cs: Vec<char> = chars(s);
    let mut from: usize = 0;
    let mut to: usize = cs.len();
    assert(s@.subrange(0, s@.len() as int) =~= s@);
    while from < to && space(cs[from])
        invariant
            cs@ == s@,
            from <= to,
            to == cs@.len(),
            trimmed(s@) == trimmed(s@.subrange(from as int, to as int)),
        decreases to - from,
    {
        assert(s@.subrange(from as int, to as int).drop_first() =~= s@.subrange(
            from + 1,
            to as int,
        ));
        from = from + 1;
    }
    while from < to && space(cs[to - 1])
        invariant
            cs@ == s@,
            from <= to <= cs@.len(),
            from < to ==> !is_space(s@[from as int]),
            trimmed(s@) == trimmed(s@.subrange(from as int, to as int)),
        decreases to - from,
    {
        assert(s@.subrange(from as int, to as int).drop_last() =~= s@.subrange(
            from as int,
            to - 1,
        ));
        to = to - 1;
    }
    s.substring_char(from, to)
}

/// What is left after trimming has no white space at its ends, and only white
/// space was taken away.
pub proof fn law_only_white_space_is_trimmed(s: Seq<char>) -> (r: (Seq<char>, Seq<char>))
    ensures
        s == r.0 + trimmed(s) + r.1,
        forall|i: int| 0 <= i < r.0.len() ==> is_space(#[trigger] r.0[i]),
        forall|i: int| 0 <= i < r.1.len() ==> is_space(#[trigger] r.1[i]),
        trimmed(s).len() > 0 ==> !is_space(trimmed(s)[0]) && !is_space(trimmed(s).last()),
    decreases s.len(),
{
    let none = Seq::<char>::empty();
    if s.len() == 0 {
        assert(s =~= none + trimmed(s) + none);
        (none, none)
    } else if is_space(s[0]) {
        let (a, b) = law_only_white_space_is_trimmed(s.drop_first());
        let front = seq![s[0]] + a;
        assert(s =~= seq![s[0]] + s.drop_first());
        assert(s =~= front + trimmed(s) + b);
        (front, b)
    } else if is_space(s.last()) {
        let (a, b) = law_only_white_space_is_trimmed(s.drop_last());
        let back = b.push(s.last());
        assert(s =~= s.drop_last().push(s.last()));
        assert(s =~= a + trimmed(s) + back);
        (a, back)
    } else {
        assert(s =~= none + trimmed(s) + none);
        (none, none)
    }
}

// ── ASCII case ──────────────────────────────────────────────────────────────

/// `c` with an ASCII capital turned into its small letter.
pub open spec fn ascii_lower_char(c: char) -> char {
    if 'A' <= c <= 'Z' {
        (c as u8 + 32) as char
    } else {
        c
    }
}

/// `s` with every ASCII capital turned into its small letter.
pub open spec fn ascii_lower(s: Seq<char>) -> Seq<char> {
    s.map_values(|c: char| ascii_lower_char(c))
}

/// `c` with an ASCII small letter turned into its capital.
pub open spec fn ascii_upper_char(c: char) -> char {
    if 'a' <= c <= 'z' {
        (c as u8 - 32) as char
    } else {
        c
    }
}

/// `s` with every ASCII small letter turned into its capital.
pub open spec fn ascii_upper(s: Seq<char>) -> Seq<char> {
    s.map_values(|c: char| ascii_upper_char(c))
}

/// Each ASCII capital becomes the small letter with the same place in the
/// alphabet, and each small letter the capital; no other character changes.
pub proof fn law_letters_change_their_case(s: Seq<char>, i: int)
    requires
        0 <= i < s.len(),
    ensures
        ascii_lower(s).len() == s.len(),
        ascii_upper(s).len() == s.len(),
        'A' <= s[i] <= 'Z' ==> 'a' <= ascii_lower(s)[i] <= 'z' && ascii_lower(s)[i] as int
            - s[i] as int == 'a' as int - 'A' as int,
        !('A' <= s[i] <= 'Z') ==> ascii_lower(s)[i] == s[i],
        'a' <= s[i] <= 'z' ==> 'A' <= ascii_upper(s)[i] <= 'Z' && s[i] as int
            - ascii_upper(s)[i] as int == 'a' as int - 'A' as int,
        !('a' <= s[i] <= 'z') ==> ascii_upper(s)[i] == s[i],
{
}

/// What `str::to_lowercase` gives for a text.
pub uninterp spec fn lowercase(s: Seq<char>) -> Seq<char>;

/// What `str::to_uppercase` gives for a text.
pub uninterp spec fn uppercase(s: Seq<char>) -> Seq<char>;

/// `str::to_lowercase`: small letters as Unicode has them. The result depends
/// on the text alone; in a text that is all ASCII, it changes `A` to `Z` and
/// nothing else.
#[verifier::external_body]
pub(crate) fn to_lower(s: &str) -> (r: String)
    ensures
        r@ == lowercase(s@),
        is_ascii(s) ==> r@ == ascii_lower(s@),
{
    s.to_lowercase()
}

/// `str::to_uppercase`: capitals as Unicode has them. The result depends on the
/// text alone; in a text that is all ASCII, it changes `a` to `z` and nothing
/// else.
#[verifier::external_body]
pub(crate) fn to_upper(s: &str) -> (r: String)
    ensures
        r@ == uppercase(s@),
        is_ascii(s) ==> r@ == ascii_upper(s@),
{
    s.to_uppercase()
}

/// A copy of `s` in which ASCII capitals are small letters.
pub fn to_ascii_lower(s: &str) -> (r: String)
    ensures
        r@ == ascii_lower(s@),
{
    let cs: Vec<char> = chars(s);
    let mut out: String = String::new();
    let mut i: usize = 0;
    while i < cs.len()
        invariant
            cs@ == s@,
            i <= cs@.len(),
            out@ == ascii_lower(s@).take(i as int),
        decreases cs@.len() - i,
    {
        let c: char = cs[i];
        let d: char = if 'A' <= c && c <= 'Z' {
            (c as u8 + 32) as char
        } else {
            c
        };
        out.push(d);
        assert(ascii_lower(s@).take(i + 1) =~= ascii_lower(s@).take(i as int).push(
            ascii_lower_char(c),
        ));
        i = i + 1;
    }
    assert(ascii_lower(s@).take(s@.len() as int) =~= ascii_lower(s@));
    out
}

} // verus!
