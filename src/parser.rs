//! The device listing parser.
//!
//! A listing is a two-line header, then one device per line until a blank
//! line or the line that opens the persisted-devices section. A device line
//! has the bus id, a vendor/product column, a description of any number of
//! words, and a state column; the state column is the first word that begins
//! with a known state word, and runs to the end of the line.
use vstd::prelude::*;
use vstd::utf8::{decode_utf8, valid_utf8};

use crate::device::{
    classify_state, records_view, state_of_text, DeviceRecord, DeviceRecordView, DeviceState,
};
use crate::text::{
    lemma_line_run, chars_of, contains_seq, has_prefix, join_spans, join_words, next_line, span_has_prefix,
    span_texts, text_lines, word_spans, words,
};

verus! {

/// Why a listing could not be read.
#[derive(Clone, Debug, PartialEq, Eq)]
pub enum PollError {
    /// The listing tool could not be started.
    Launch(String),
    /// Its output is not UTF-8 text.
    Undecodable,
    /// It exited with a failure and listed no device.
    ToolFailed,
}

/// A word that opens the state column.
pub open spec fn is_state_marker(w: Seq<char>) -> bool {
    has_prefix(w, "Not"@) || has_prefix(w, "Attached"@) || has_prefix(w, "Shared"@)
}

/// Number of leading words that do not open the state column.
pub open spec fn description_len(ws: Seq<Seq<char>>) -> nat
    decreases ws.len(),
{
    if ws.len() == 0 || is_state_marker(ws[0]) {
        0
    } else {
        1 + description_len(ws.drop_first())
    }
}

/// The record that the words of one device line give, if it has enough words.
pub open spec fn record_of_words(ws: Seq<Seq<char>>) -> Option<DeviceRecordView> {
    if ws.len() < 4 {
        None
    } else {
        let d = 2 + description_len(ws.skip(2)) as int;
        Some(
            DeviceRecordView {
                bus_id: ws[0],
                description: join_words(ws.subrange(2, d)),
                state: if d < ws.len() {
                    state_of_text(join_words(ws.skip(d)))
                } else {
                    DeviceState::Unknown
                },
            },
        )
    }
}

/// A line that ends the device section: blank, or the persisted-devices heading.
pub open spec fn ends_listing(l: Seq<char>) -> bool {
    l.len() == 0 || contains_seq(l, "Persisted:"@)
}

/// The records of the device lines `ls`, up to the first line that ends the section.
pub open spec fn listing_rows(ls: Seq<Seq<char>>) -> Seq<DeviceRecordView>
    decreases ls.len(),
{
    if ls.len() == 0 || ends_listing(ls[0]) {
        seq![]
    } else {
        match record_of_words(words(ls[0])) {
            Some(r) => seq![r] + listing_rows(ls.drop_first()),
            None => listing_rows(ls.drop_first()),
        }
    }
}

/// The records of a whole listing: its lines after the two-line header.
pub open spec fn parse_listing(t: Seq<char>) -> Seq<DeviceRecordView> {
    let ls = text_lines(t);
    if ls.len() <= 2 {
        seq![]
    } else {
        listing_rows(ls.skip(2))
    }
}

proof fn lemma_description_len(ws: Seq<Seq<char>>, k: int)
    requires
        0 <= k <= ws.len(),
        forall|i: int| 0 <= i < k ==> !is_state_marker(#[trigger] ws[i]),
        k == ws.len() || is_state_marker(ws[k]),
    ensures
        description_len(ws) == k,
    decreases k,
{
    if k > 0 {
        lemma_description_len(ws.drop_first(), k - 1);
    }
}

/// Whether `p` occurs in the span `cs[start..end]`.
fn span_contains(cs: &Vec<char>, start: usize, end: usize, p: &str) -> (r: bool)
    requires
        start <= end <= cs@.len(),
        p@.len() > 0,
    ensures
        r == contains_seq(cs@.subrange(start as int, end as int), p@),
{
    let ghost w = cs@.subrange(start as int, end as int);
    let mut i: usize = start;
    while i < end
        invariant
            start <= i <= end <= cs@.len(),
            w == cs@.subrange(start as int, end as int),
            forall|m: int|
                0 <= m < i - start && m + p@.len() <= w.len() ==> #[trigger] w.subrange(
                    m,
                    m + p@.len(),
                ) != p@,
        decreases end - i,
    {
        if span_has_prefix(cs, i, end, p) {
            assert(cs@.subrange(i as int, end as int).take(p@.len() as int) =~= w.subrange(
                i - start,
                i - start + p@.len(),
            ));
            return true;
        }
        proof {
            let m = i - start;
            if m + p@.len() <= w.len() {
                assert(cs@.subrange(i as int, end as int).take(p@.len() as int) =~= w.subrange(
                    m,
                    m + p@.len(),
                ));
            }
        }
        i = i + 1;
    }
    false
}

/// Whether the word span begins with a state word.
fn span_is_state_marker(cs: &Vec<char>, span: (usize, usize)) -> (r: bool)
    requires
        span.0 <= span.1 <= cs@.len(),
    ensures
        r == is_state_marker(cs@.subrange(span.0 as int, span.1 as int)),
{
    span_has_prefix(cs, span.0, span.1, "Not") || span_has_prefix(cs, span.0, span.1, "Attached")
        || span_has_prefix(cs, span.0, span.1, "Shared")
}

/// The record of one device line, given the spans of its words in `text`.
fn record_of_spans(text: &str, cs: &Vec<char>, spans: &Vec<(usize, usize)>) -> (r: Option<
    DeviceRecord,
>)
    requires
        cs@ == text@,
        forall|k: int|
            0 <= k < spans@.len() ==> (#[trigger] spans@[k]).0 <= spans@[k].1 <= cs@.len(),
    ensures
        r matches Some(rec) ==> record_of_words(span_texts(cs@, spans@)) == Some(rec@),
        r is None ==> record_of_words(span_texts(cs@, spans@)) is None,
{
    let ghost ws = span_texts(cs@, spans@);
    let n = spans.len();
    if n < 4 {
        return None;
    }
    let mut d: usize = 2;
    while d < n && !span_is_state_marker(cs, spans[d])
        invariant
            n == spans@.len(),
            2 <= d <= n,
            ws == span_texts(cs@, spans@),
            forall|k: int|
                0 <= k < spans@.len() ==> (#[trigger] spans@[k]).0 <= spans@[k].1 <= cs@.len(),
            forall|i: int| 2 <= i < d ==> !is_state_marker(#[trigger] ws[i]),
        decreases n - d,
    {
        d = d + 1;
    }
    proof {
        let rest = ws.skip(2);
        assert forall|i: int| 0 <= i < d - 2 implies !is_state_marker(#[trigger] rest[i]) by {
            assert(rest[i] == ws[i + 2]);
        }
        lemma_description_len(rest, d - 2);
    }
    let (a, b) = spans[0];
    let bus_id = String::from_str(text.substring_char(a, b));
    let description = join_spans(text, spans, 2, d);
    let state = if d < n {
        let raw = join_spans(text, spans, d, n);
        assert(ws.subrange(d as int, n as int) =~= ws.skip(d as int));
        classify_state(raw.as_str())
    } else {
        DeviceState::Unknown
    };
    Some(DeviceRecord { bus_id, description, state })
}

/// Parses the text of a device listing into its records, in order.
pub fn parse_device_list(text: &str) -> (r: Vec<DeviceRecord>)
    ensures
        records_view(r@) == parse_listing(text@),
{
    let cs = chars_of(text);
    let ghost t = cs@;
    let ghost all = text_lines(t);
    let n = cs.len();
    let mut pos: usize = 0;
    let mut skipped: usize = 0;
    assert(t.skip(0) =~= t);
    // the header
    while pos < n && skipped < 2
        invariant
            t == cs@,
            n == t.len(),
            pos <= n,
            skipped <= 2,
            skipped <= all.len(),
            all == text_lines(t),
            text_lines(t.skip(pos as int)) == all.skip(skipped as int),
        decreases n - pos,
    {
        let (_e, next) = next_line(&cs, pos);
        proof {
            assert(all.skip(skipped as int).drop_first() =~= all.skip(skipped + 1));
        }
        pos = next;
        skipped = skipped + 1;
    }
    let ghost mut idx: int = skipped as int;
    let mut out: Vec<DeviceRecord> = Vec::new();
    if pos >= n {
        assert(t.skip(n as int) =~= Seq::<char>::empty());
        assert(all.skip(idx).len() == 0);
        assert(records_view(out@) =~= parse_listing(text@));
        return out;
    }
    let ghost body = all.skip(2);
    assert(all.skip(idx).len() > 0);
    let mut done = false;
    while pos < n && !done
        invariant
            t == cs@,
            t == text@,
            n == t.len(),
            pos <= n,
            2 <= idx <= all.len(),
            all == text_lines(t),
            all.len() > 2,
            body == all.skip(2),
            text_lines(t.skip(pos as int)) == all.skip(idx),
            done ==> listing_rows(all.skip(idx)) == Seq::<DeviceRecordView>::empty(),
            records_view(out@) + listing_rows(all.skip(idx)) == listing_rows(body),
        decreases n - pos + (if done { 0int } else { 1int }),
    {
        let (e, next) = next_line(&cs, pos);
        let ghost line = t.subrange(pos as int, e as int);
        proof {
            assert(all.skip(idx).drop_first() =~= all.skip(idx + 1));
            assert(all.skip(idx)[0] == line);
        }
        proof {
            reveal_strlit("Persisted:");
        }
        if e == pos || span_contains(&cs, pos, e, "Persisted:") {
            done = true;
        } else {
            let spans = word_spans(&cs, pos, e);
            let rec = record_of_spans(text, &cs, &spans);
            let ghost before = records_view(out@);
            match rec {
                Some(r) => {
                    out.push(r);
                    assert(records_view(out@) =~= before + seq![r@]);
                },
                None => {},
            }
            pos = next;
            proof {
                idx = idx + 1;
            }
        }
    }
    if !done {
        assert(t.skip(n as int) =~= Seq::<char>::empty());
        assert(all.skip(idx).len() == 0);
    }
    assert(records_view(out@) =~= records_view(out@) + listing_rows(all.skip(idx)));
    out
}

/// Lines, each followed by a line feed.
pub open spec fn lines_text(ls: Seq<Seq<char>>) -> Seq<char>
    decreases ls.len(),
{
    if ls.len() == 0 {
        seq![]
    } else {
        ls[0] + seq!['\n'] + lines_text(ls.drop_first())
    }
}

/// A listing text: two header lines, the device lines, and a blank line.
pub open spec fn listing_text(h1: Seq<char>, h2: Seq<char>, rows: Seq<Seq<char>>) -> Seq<char> {
    lines_text(seq![h1, h2] + rows + seq![Seq::<char>::empty()])
}

/// A line that can stand in a text as it is: no line feed in it, and no
/// carriage return at its end.
pub open spec fn plain_line(l: Seq<char>) -> bool {
    (forall|i: int| 0 <= i < l.len() ==> l[i] != '\n') && !(l.len() > 0 && l.last() == '\r')
}

/// A device line of a listing: not blank, no persisted-devices heading in it.
pub open spec fn row_line(l: Seq<char>) -> bool {
    plain_line(l) && !ends_listing(l)
}

proof fn lemma_lines_of_text(ls: Seq<Seq<char>>)
    requires
        forall|i: int| 0 <= i < ls.len() ==> plain_line(#[trigger] ls[i]),
    ensures
        text_lines(lines_text(ls)) == ls,
    decreases ls.len(),
{
    if ls.len() > 0 {
        let l = ls[0];
        let rest = ls.drop_first();
        assert forall|i: int| 0 <= i < rest.len() implies plain_line(#[trigger] rest[i]) by {
            assert(rest[i] == ls[i + 1]);
        }
        lemma_lines_of_text(rest);
        let t = lines_text(ls);
        assert(t == l + seq!['\n'] + lines_text(rest));
        lemma_line_run(t, l.len() as int);
        assert(t.take(l.len() as int) =~= l);
        assert(t.skip(l.len() as int + 1) =~= lines_text(rest));
        assert(text_lines(t) =~= seq![l] + rest);
        assert(seq![l] + rest =~= ls);
    }
}

proof fn lemma_rows_then_blank(rows: Seq<Seq<char>>)
    requires
        forall|i: int| 0 <= i < rows.len() ==> !ends_listing(#[trigger] rows[i]),
    ensures
        listing_rows(rows + seq![Seq::<char>::empty()]) == listing_rows(rows),
    decreases rows.len(),
{
    let ls = rows + seq![Seq::<char>::empty()];
    if rows.len() == 0 {
        assert(ls[0].len() == 0);
    } else {
        let rest = rows.drop_first();
        assert forall|i: int| 0 <= i < rest.len() implies !ends_listing(#[trigger] rest[i]) by {
            assert(rest[i] == rows[i + 1]);
        }
        lemma_rows_then_blank(rest);
        assert(ls[0] == rows[0]);
        assert(ls.drop_first() =~= rest + seq![Seq::<char>::empty()]);
    }
}

proof fn lemma_full_rows(rows: Seq<Seq<char>>)
    requires
        forall|i: int| 0 <= i < rows.len() ==> !ends_listing(#[trigger] rows[i]),
        forall|i: int| 0 <= i < rows.len() ==> words(#[trigger] rows[i]).len() >= 4,
    ensures
        listing_rows(rows).len() == rows.len(),
        forall|i: int|
            0 <= i < rows.len() ==> Some(#[trigger] listing_rows(rows)[i]) == record_of_words(
                words(rows[i]),
            ),
    decreases rows.len(),
{
    if rows.len() > 0 {
        let rest = rows.drop_first();
        assert forall|i: int| 0 <= i < rest.len() implies !ends_listing(#[trigger] rest[i])
            && words(rest[i]).len() >= 4 by {
            assert(rest[i] == rows[i + 1]);
        }
        lemma_full_rows(rest);
        assert forall|i: int| 0 <= i < rows.len() implies Some(
            #[trigger] listing_rows(rows)[i],
        ) == record_of_words(words(rows[i])) by {
            if i > 0 {
                assert(rows[i] == rest[i - 1]);
            }
        }
    }
}

/// A listing made of two header lines, device lines and a blank line parses
/// to the records of the device lines, in their order; a device line with
/// fewer than four words gives no record, and the lines after it are parsed
/// as if it were not there; so when each device line has four words or more
/// there is exactly one record per line, in input order.
pub proof fn lemma_listing_rows(h1: Seq<char>, h2: Seq<char>, rows: Seq<Seq<char>>)
    requires
        plain_line(h1),
        plain_line(h2),
        forall|i: int| 0 <= i < rows.len() ==> row_line(#[trigger] rows[i]),
    ensures
        parse_listing(listing_text(h1, h2, rows))
            == listing_rows(rows),
        forall|i: int|
            0 <= i < rows.len() && words(#[trigger] rows[i]).len() < 4 ==> listing_rows(rows)
                == listing_rows(rows.take(i)) + listing_rows(rows.skip(i + 1)),
        (forall|i: int| 0 <= i < rows.len() ==> words(#[trigger] rows[i]).len() >= 4) ==> {
            &&& parse_listing(listing_text(h1, h2, rows)).len()
                == rows.len()
            &&& forall|i: int|
                0 <= i < rows.len() ==> Some(
                    #[trigger] parse_listing(listing_text(h1, h2, rows))[i],
                ) == record_of_words(words(rows[i]))
        },
{
    let ls = seq![h1, h2] + rows + seq![Seq::<char>::empty()];
    assert forall|i: int| 0 <= i < ls.len() implies plain_line(#[trigger] ls[i]) by {
        if 2 <= i < ls.len() - 1 {
            assert(ls[i] == rows[i - 2]);
        }
    }
    lemma_lines_of_text(ls);
    assert(ls.skip(2) =~= rows + seq![Seq::<char>::empty()]);
    lemma_rows_then_blank(rows);
    assert forall|i: int| 0 <= i < rows.len() && words(#[trigger] rows[i]).len() < 4 implies listing_rows(rows)
        == listing_rows(rows.take(i)) + listing_rows(rows.skip(i + 1)) by {
        lemma_skip_short_row(rows, i);
    }
    if forall|i: int| 0 <= i < rows.len() ==> words(#[trigger] rows[i]).len() >= 4 {
        lemma_full_rows(rows);
    }
}

proof fn lemma_skip_short_row(rows: Seq<Seq<char>>, i: int)
    requires
        forall|k: int| 0 <= k < rows.len() ==> row_line(#[trigger] rows[k]),
        0 <= i < rows.len(),
        words(rows[i]).len() < 4,
    ensures
        listing_rows(rows) == listing_rows(rows.take(i)) + listing_rows(rows.skip(i + 1)),
    decreases i,
{
    let rest = rows.drop_first();
    if i == 0 {
        assert(rows.take(0) =~= Seq::<Seq<char>>::empty());
        assert(rest =~= rows.skip(1));
    } else {
        assert forall|k: int| 0 <= k < rest.len() implies row_line(#[trigger] rest[k]) by {
            assert(rest[k] == rows[k + 1]);
        }
        assert(rest[i - 1] == rows[i]);
        lemma_skip_short_row(rest, i - 1);
        assert(rest.skip(i) =~= rows.skip(i + 1));
        let pre = rows.take(i);
        assert(pre[0] == rows[0]);
        assert(pre.drop_first() =~= rest.take(i - 1));
        assert(row_line(rows[0]));
    }
}

/// The state column decides the state: a device line whose description opens
/// no state column is classified from the words it ends in: `Not shared`,
/// `Shared` and `Shared (forced)`, `Attached`; with no state word it is
/// `Unknown`. (Each line needs four words or more to give a record.)
pub proof fn lemma_state_classification(bus: Seq<char>, column: Seq<char>, desc: Seq<Seq<char>>)
    requires
        forall|i: int| 0 <= i < desc.len() ==> !is_state_marker(#[trigger] desc[i]),
    ensures
        record_of_words(seq![bus, column] + desc + seq!["Not"@, "shared"@]) matches Some(r)
            && r.state == DeviceState::NotShared,
        desc.len() >= 1 ==> (record_of_words(seq![bus, column] + desc + seq!["Shared"@]) matches Some(r)
            && r.state == DeviceState::Shared),
        record_of_words(seq![bus, column] + desc + seq!["Shared"@, "(forced)"@]) matches Some(r)
            && r.state == DeviceState::Shared,
        desc.len() >= 1 ==> (record_of_words(seq![bus, column] + desc + seq!["Attached"@]) matches Some(r)
            && r.state == DeviceState::Attached),
        desc.len() >= 2 ==> (record_of_words(seq![bus, column] + desc) matches Some(r) && r.state
            == DeviceState::Unknown),
{
    reveal_strlit("Not");
    reveal_strlit("shared");
    reveal_strlit("Not shared");
    reveal_strlit("Shared");
    reveal_strlit("(forced)");
    reveal_strlit("Shared (forced)");
    reveal_strlit("Attached");
    let head = seq![bus, column] + desc;
    assert("Not"@.take(3) =~= "Not"@);
    assert(has_prefix("Not"@, "Not"@));
    assert("Shared"@.take(6) =~= "Shared"@);
    assert(has_prefix("Shared"@, "Shared"@));
    assert("Attached"@.take(8) =~= "Attached"@);
    assert(has_prefix("Attached"@, "Attached"@));
    lemma_tail_state(head, desc, seq!["Not"@, "shared"@]);
    lemma_join_two("Not"@, "shared"@);
    assert(join_words(seq!["Not"@, "shared"@]) =~= "Not shared"@);
    if desc.len() >= 1 {
        lemma_tail_state(head, desc, seq!["Shared"@]);
        lemma_tail_state(head, desc, seq!["Attached"@]);
    }
    lemma_tail_state(head, desc, seq!["Shared"@, "(forced)"@]);
    lemma_join_two("Shared"@, "(forced)"@);
    assert(join_words(seq!["Shared"@, "(forced)"@]) =~= "Shared (forced)"@);
    if desc.len() >= 2 {
        lemma_tail_state(head, desc, seq![]);
    }
}

proof fn lemma_join_two(a: Seq<char>, b: Seq<char>)
    ensures
        join_words(seq![a, b]) == a + seq![' '] + b,
{
    let ws = seq![a, b];
    assert(ws.drop_last() =~= seq![a]);
    assert(join_words(seq![a]) == a);
    assert(ws.last() == b);
    assert(join_words(ws) == join_words(ws.drop_last()) + seq![' '] + ws.last());
}

proof fn lemma_tail_state(head: Seq<Seq<char>>, desc: Seq<Seq<char>>, tail: Seq<Seq<char>>)
    requires
        head.len() == desc.len() + 2,
        forall|i: int| 0 <= i < desc.len() ==> head[i + 2] == desc[i],
        forall|i: int| 0 <= i < desc.len() ==> !is_state_marker(#[trigger] desc[i]),
        tail.len() > 0 ==> is_state_marker(tail[0]),
        head.len() + tail.len() >= 4,
    ensures
        record_of_words(head + tail) matches Some(r) && r.state == (if tail.len() > 0 {
            state_of_text(join_words(tail))
        } else {
            DeviceState::Unknown
        }),
{
    let ws = head + tail;
    let rest = ws.skip(2);
    assert forall|i: int| 0 <= i < desc.len() implies !is_state_marker(#[trigger] rest[i]) by {
        assert(rest[i] == desc[i]);
    }
    if tail.len() > 0 {
        assert(rest[desc.len() as int] == tail[0]);
    }
    lemma_description_len(rest, desc.len() as int);
    assert(ws.skip(head.len() as int) =~= tail);
}

/// Relies on `std::str::from_utf8`: it accepts exactly the valid UTF-8 byte
/// strings, and the text it gives holds the characters that they encode.
#[verifier::external_body]
fn decode_text(b: &[u8]) -> (r: Option<String>)
    ensures
        r is Some <==> valid_utf8(b@),
        r matches Some(s) ==> s@ == decode_utf8(b@),
{
    std::str::from_utf8(b).ok().map(|s| s.to_string())
}

/// Reads the captured output of a listing run: `exit_success` tells whether
/// the tool exited with success, `stdout` is what it wrote.
pub fn parse_list_output(exit_success: bool, stdout: &[u8]) -> (r: Result<
    Vec<DeviceRecord>,
    PollError,
>)
    ensures
        !valid_utf8(stdout@) ==> r == Err::<Vec<DeviceRecord>, PollError>(PollError::Undecodable),
        valid_utf8(stdout@) && !exit_success && parse_listing(decode_utf8(stdout@)).len() == 0
            ==> r == Err::<Vec<DeviceRecord>, PollError>(PollError::ToolFailed),
        valid_utf8(stdout@) && (exit_success || parse_listing(decode_utf8(stdout@)).len() > 0)
            ==> (r matches Ok(v) && records_view(v@) == parse_listing(decode_utf8(stdout@))),
{
    match decode_text(stdout) {
        None => Err(PollError::Undecodable),
        Some(text) => {
            let records = parse_device_list(text.as_str());
            if !exit_success && records.len() == 0 {
                Err(PollError::ToolFailed)
            } else {
                Ok(records)
            }
        },
    }
}

} // verus!
