//! What the database is told about connections.

use vstd::prelude::*;
use vstd::string::*;

use crate::numbers::{int_text, push_int};
use crate::text::chars;

verus! {

/// The character as it stands in a quoted text of a statement: a single quote or
/// a backslash behind a backslash, anything else as it is.
pub open spec fn escaped_char(c: char) -> Seq<char> {
    if c == '\'' || c == '\\' {
        seq!['\\', c]
    } else {
        seq![c]
    }
}

/// `s` with a backslash before every single quote and every backslash.
pub open spec fn escaped(s: Seq<char>) -> Seq<char>
    decreases s.len(),
{
    if s.len() == 0 {
        Seq::empty()
    } else {
        escaped(s.drop_last()) + escaped_char(s.last())
    }
}

/// Where a quoted text ends that is read from `i` on: at the first single quote
/// that is met when the character behind each backslash is skipped. The length
/// of `s` where there is none.
pub open spec fn literal_end(s: Seq<char>, i: int) -> int
    decreases s.len() - i + 1,
{
    if i >= s.len() {
        s.len() as int
    } else if s[i] == '\\' {
        literal_end(s, i + 2)
    } else if s[i] == '\'' {
        i
    } else {
        literal_end(s, i + 1)
    }
}

/// What is read from the inside of a quoted text: the character behind each
/// backslash, and every other character, as it is.
pub open spec fn literal_text(s: Seq<char>) -> Seq<char>
    decreases s.len(),
{
    if s.len() == 0 {
        Seq::empty()
    } else if s[0] == '\\' && s.len() > 1 {
        seq![s[1]] + literal_text(s.skip(2))
    } else {
        seq![s[0]] + literal_text(s.skip(1))
    }
}

proof fn lemma_scan_passes(before: Seq<char>, s: Seq<char>, after: Seq<char>)
    ensures
        literal_end(before + escaped(s) + after, before.len() as int) == literal_end(
            before + escaped(s) + after,
            (before.len() + escaped(s).len()) as int,
        ),
    decreases s.len(),
{
    if s.len() > 0 {
        let c = s.last();
        let head = escaped(s.drop_last());
        let rest = escaped_char(c) + after;
        lemma_scan_passes(before, s.drop_last(), rest);
        let all = before + escaped(s) + after;
        assert(all =~= before + head + rest);
        let i = (before.len() + head.len()) as int;
        assert(all[i] == escaped_char(c)[0]);
    }
}

proof fn lemma_text_is_read(s: Seq<char>, after: Seq<char>)
    ensures
        literal_text(escaped(s) + after) == s + literal_text(after),
    decreases s.len(),
{
    if s.len() == 0 {
        assert(escaped(s) + after =~= after);
        assert(s + literal_text(after) =~= literal_text(after));
    } else {
        let c = s.last();
        let rest = escaped_char(c) + after;
        lemma_text_is_read(s.drop_last(), rest);
        assert(escaped(s) + after =~= escaped(s.drop_last()) + rest);
        assert(rest[0] == escaped_char(c)[0]);
        if escaped_char(c).len() == 2 {
            assert(rest[1] == c);
            assert(rest.skip(2) =~= after);
        } else {
            assert(rest.skip(1) =~= after);
        }
        assert(s.drop_last() + (seq![c] + literal_text(after)) =~= s + literal_text(after));
    }
}

/// A quoted text ends where it is meant to end, whatever it holds: read from
/// behind the opening quote, the first bare quote is the one that follows the
/// escaped text.
pub proof fn law_text_cannot_close_its_quotes(before: Seq<char>, s: Seq<char>, after: Seq<char>)
    requires
        after.len() > 0,
        after[0] == '\'',
    ensures
        literal_end(before + escaped(s) + after, before.len() as int) == before.len() + escaped(
            s,
        ).len(),
{
    lemma_scan_passes(before, s, after);
    let end = (before.len() + escaped(s).len()) as int;
    assert((before + escaped(s) + after)[end] == after[0]);
}

/// What is read from a quoted text is the text that was escaped.
pub proof fn law_escaped_text_reads_back(s: Seq<char>)
    ensures
        literal_text(escaped(s)) == s,
{
    let none = Seq::<char>::empty();
    lemma_text_is_read(s, none);
    assert(escaped(s) + none =~= escaped(s));
    assert(s + literal_text(none) =~= s);
}

/// A text without single quotes and backslashes is left as it is.
pub proof fn law_plain_text_is_kept(s: Seq<char>)
    requires
        !s.contains('\''),
        !s.contains('\\'),
    ensures
        escaped(s) == s,
    decreases s.len(),
{
    if s.len() > 0 {
        let head = s.drop_last();
        assert(s[s.len() - 1] == s.last());
        assert forall|i: int| 0 <= i < head.len() implies head[i] != '\'' && head[i] != '\\' by {
            assert(head[i] == s[i]);
        }
        law_plain_text_is_kept(head);
        assert(head + seq![s.last()] =~= s);
    }
}

/// `s` with a backslash before every single quote and every backslash, to stand
/// in a quoted text of a statement.
pub fn escape(s: &str) -> (r: String)
    ensures
        r@ == escaped(s@),
{
    let cs: Vec<char> = chars(s);
    let mut out: String = String::new();
    assert(s@.take(0) =~= Seq::empty());
    let mut i: usize = 0;
    while i < cs.len()
        invariant
            cs@ == s@,
            i <= cs@.len(),
            out@ == escaped(s@.take(i as int)),
        decreases cs@.len() - i,
    {
        let ghost before = out@;
        assert(s@.take(i + 1).drop_last() =~= s@.take(i as int));
        assert(s@.take(i + 1).last() == s@[i as int]);
        let c: char = cs[i];
        if c == '\'' || c == '\\' {
            out.push('\\');
        }
        out.push(c);
        assert(out@ =~= before + escaped_char(c));
        i = i + 1;
    }
    assert(s@.take(s@.len() as int) =~= s@);
    out
}

/// The statement that writes down what happened to a connection, up to the quote
/// that opens the detail.
pub open spec fn event_head(now_ms: i64, source: Seq<char>, event: Seq<char>) -> Seq<char> {
    "INSERT INTO conn_events (ts_ms, source, event, detail) VALUES ("@ + int_text(now_ms as int)
        + ", '"@ + source + "', '"@ + event + "', '"@
}

/// The statement names the table and its columns, and then, in this order, the
/// time, the source and the event: read from behind its opening quote, the first
/// quoted text is the source and the second is the event, and behind them the
/// quotes of the detail open.
pub proof fn law_statement_tells_time_source_and_event(
    now_ms: i64,
    source: Seq<char>,
    event: Seq<char>,
)
    requires
        !source.contains('\'') && !source.contains('\\'),
        !event.contains('\'') && !event.contains('\\'),
    ensures
        ({
            let head = event_head(now_ms, source, event);
            let start = "INSERT INTO conn_events (ts_ms, source, event, detail) VALUES ("@
                + int_text(now_ms as int) + ", '"@;
            let a = start.len() as int;
            let b = a + source.len() + 4;
            &&& head.len() == b + event.len() + 4
            &&& head.subrange(0, a) == start
            &&& literal_end(head, a) == a + source.len()
            &&& head.subrange(a, a + source.len()) == source
            &&& head.subrange(a + source.len(), b) == "', '"@
            &&& literal_end(head, b) == b + event.len()
            &&& head.subrange(b, b + event.len()) == event
            &&& head.subrange(b + event.len(), head.len() as int) == "', '"@
        }),
{
    let head = event_head(now_ms, source, event);
    let start = "INSERT INTO conn_events (ts_ms, source, event, detail) VALUES ("@ + int_text(
        now_ms as int,
    ) + ", '"@;
    let sep = "', '"@;
    assert(sep.len() == 4 && sep[0] == '\'') by {
        reveal_strlit("', '");
    }
    law_plain_text_is_kept(source);
    law_plain_text_is_kept(event);
    let behind = sep + event + sep;
    assert(head =~= start + source + behind);
    law_text_cannot_close_its_quotes(start, source, behind);
    let upto = start + source + sep;
    assert(head =~= upto + event + sep);
    law_text_cannot_close_its_quotes(upto, event, sep);
    let a = start.len() as int;
    let b = a + source.len() + 4;
    assert(head.subrange(0, a) =~= start);
    assert(head.subrange(a, a + source.len()) =~= source);
    assert(head.subrange(a + source.len(), b) =~= sep);
    assert(head.subrange(b, b + event.len()) =~= event);
    assert(head.subrange(b + event.len(), head.len() as int) =~= sep);
}

/// The statement that writes down what happened to a connection. The detail may
/// hold any text: its quotes are closed by the last quote of the statement and
/// by none before it, and what is read from them is the detail.
pub fn conn_event_sql(now_ms: i64, source: &str, event: &str, detail: &str) -> (r: String)
    ensures
        r@ == event_head(now_ms, source@, event@) + escaped(detail@) + "')"@,
        literal_end(r@, event_head(now_ms, source@, event@).len() as int) == r@.len() - 2,
        literal_text(
            r@.subrange(event_head(now_ms, source@, event@).len() as int, r@.len() - 2),
        ) == detail@,
{
    let mut sql: String =
        "INSERT INTO conn_events (ts_ms, source, event, detail) VALUES (".to_owned();
    push_int(&mut sql, now_ms as i128);
    sql.append(", '");
    sql.append(source);
    sql.append("', '");
    sql.append(event);
    sql.append("', '");
    sql.append(escape(detail).as_str());
    sql.append("')");
    proof {
        let head = event_head(now_ms, source@, event@);
        reveal_strlit("')");
        assert("')"@.len() == 2 && "')"@[0] == '\'');
        law_text_cannot_close_its_quotes(head, detail@, "')"@);
        law_escaped_text_reads_back(detail@);
        assert(sql@.subrange(head.len() as int, sql@.len() - 2) =~= escaped(detail@));
    }
    sql
}

} // verus!
