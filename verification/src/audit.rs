//! JSONL audit log with a SHA-256 hash chain. Tamper-evident, not
//! tamper-proof.
//!
//! Every record carries its sequence number (from 1), the hash of the
//! previous record (`"GENESIS"` for the first) and its own hash: the
//! lower-case hex SHA-256 of the compact JSON of the record without its
//! `hash` field. This module computes the lines to append and checks a
//! chain; reading and writing the file is left to the caller.
use vstd::prelude::*;
use crate::json::{self, JsonView, NumberView, field_u64, field_str, parsed_text, printed, object_of};
use crate::text::{hex_lower, to_hex, same_text};

verus! {

/// The SHA-256 digest of some bytes.
pub uninterp spec fn sha256(data: Seq<u8>) -> Seq<u8>;

/// `sha2::Sha256::digest`. Claims: the digest `sha256` names, 32 bytes long.
#[verifier::external_body]
fn sha256_digest(data: &[u8]) -> (r: Vec<u8>)
    ensures
        r@ == sha256(data@),
        r@.len() == 32,
{
    <sha2::Sha256 as sha2::Digest>::digest(data).to_vec()
}

/// The current UTC time in RFC 3339 form (`chrono::Utc::now().to_rfc3339()`).
/// Nothing is claimed of the text: it depends on the clock. `Utc::now`
/// panics when the system clock reads before 1970, which depends on the
/// machine alone, so no `requires` can rule it out.
#[verifier::external_body]
fn now_rfc3339() -> String {
    chrono::Utc::now().to_rfc3339()
}

/// The hash of a record: hex SHA-256 of its compact JSON text.
pub open spec fn digest_of(v: JsonView) -> Seq<char> {
    hex_lower(sha256(vstd::utf8::encode_utf8(printed(v))))
}

/// What one audit record says.
pub struct EntryView {
    pub ts: Seq<char>,
    pub request_id: Seq<char>,
    pub method: Seq<char>,
    pub params: JsonView,
    pub decision: Seq<char>,
    pub reason: Seq<char>,
}

pub open spec fn genesis() -> Seq<char> {
    "GENESIS"@
}

/// The fields of a record before its hash is added, in the order the
/// writer lists them.
pub open spec fn body_pairs(seq: u64, e: EntryView, prev: Seq<char>) -> Seq<(Seq<char>, JsonView)> {
    seq![
        ("seq"@, JsonView::Number(NumberView::UInt(seq))),
        ("ts"@, JsonView::Str(e.ts)),
        ("request_id"@, JsonView::Str(e.request_id)),
        ("method"@, JsonView::Str(e.method)),
        ("params_redacted"@, e.params),
        ("decision"@, JsonView::Str(e.decision)),
        ("reason"@, JsonView::Str(e.reason)),
        ("prev_hash"@, JsonView::Str(prev)),
    ]
}

/// The record without its hash.
pub open spec fn body_of(seq: u64, e: EntryView, prev: Seq<char>) -> JsonView {
    JsonView::Object(object_of(body_pairs(seq, e, prev)))
}

/// The record with its hash, as it is written.
pub open spec fn record_of(seq: u64, e: EntryView, prev: Seq<char>) -> JsonView {
    JsonView::Object(
        object_of(body_pairs(seq, e, prev)).insert(
            "hash"@,
            JsonView::Str(digest_of(body_of(seq, e, prev))),
        ),
    )
}

/// Writing entry `e` to the chain in state `before` yields `line` and
/// leaves the chain in state `after`.
pub open spec fn appends(
    before: (u64, Seq<char>),
    e: EntryView,
    line: Seq<char>,
    after: (u64, Seq<char>),
) -> bool {
    let seq = (before.0 + 1) as u64;
    &&& line == printed(record_of(seq, e, before.1))
    &&& after == (seq, digest_of(body_of(seq, e, before.1)))
}

/// A written line stays on one line of the log, and reads back as the
/// record it prints when the record's parameters hold no floating-point
/// number and are nested at most 126 deep.
pub open spec fn written(before: (u64, Seq<char>), e: EntryView, line: Seq<char>) -> bool {
    &&& forall|i: int| 0 <= i < line.len() ==> #[trigger] line[i] != '\n' && line[i] != '\r'
    &&& json::json_ok(e.params, 126) ==> parsed_text(line) == Some(
        record_of((before.0 + 1) as u64, e, before.1),
    )
}

pub open spec fn entry(
    ts: Seq<char>,
    request_id: Seq<char>,
    method: Seq<char>,
    params: JsonView,
    decision: Seq<char>,
    reason: Seq<char>,
) -> EntryView {
    EntryView { ts, request_id, method, params, decision, reason }
}

/// A value with one field removed (objects only).
pub open spec fn without(v: JsonView, key: Seq<char>) -> JsonView {
    match v {
        JsonView::Object(m) => JsonView::Object(m.remove(key)),
        other => other,
    }
}

/// The hash of a line that is the record with sequence number `seq`
/// following `prev`; `None` if the line is not such a record.
pub open spec fn line_hash(v: JsonView, seq: int, prev: Seq<char>) -> Option<Seq<char>> {
    if (match field_u64(v, "seq"@) {
        Some(s) => s == seq,
        None => false,
    }) && field_str(v, "prev_hash"@) == Some(prev) {
        match field_str(v, "hash"@) {
            Some(h) => if digest_of(without(v, "hash"@)) == h {
                Some(h)
            } else {
                None
            },
            None => None,
        }
    } else {
        None
    }
}

/// Checks lines from position `i`, the previous hash being `prev`:
/// the number of good lines before the first bad one, and whether all are good.
pub open spec fn chain_check(lines: Seq<Seq<char>>, i: nat, prev: Seq<char>) -> (nat, bool)
    decreases lines.len() - i,
{
    if i >= lines.len() {
        (i, true)
    } else {
        match parsed_text(lines[i as int]) {
            None => (i, false),
            Some(v) => match line_hash(v, i + 1int, prev) {
                None => (i, false),
                Some(h) => chain_check(lines, i + 1, h),
            },
        }
    }
}

/// The pieces of a text between its line feeds (one more than there are
/// line feeds).
pub open spec fn split_lf(s: Seq<char>) -> Seq<Seq<char>>
    decreases s.len(),
{
    if s.len() == 0 {
        seq![seq![]]
    } else {
        let p = split_lf(s.drop_last());
        if s.last() == '\n' {
            p.push(seq![])
        } else {
            p.update(p.len() - 1, p.last().push(s.last()))
        }
    }
}

/// A line without the carriage return that ended it, if any.
pub open spec fn strip_cr(l: Seq<char>) -> Seq<char> {
    if l.len() > 0 && l.last() == '\r' {
        l.drop_last()
    } else {
        l
    }
}

/// The lines of a text as `str::lines` gives them: line endings are `\n`
/// and `\r\n`, not part of the lines; the final line ending is optional,
/// so a text ending in one gives no empty line after it.
pub open spec fn text_lines(s: Seq<char>) -> Seq<Seq<char>> {
    let p = split_lf(s);
    if s.len() == 0 {
        seq![]
    } else if s.last() == '\n' {
        p.drop_last().map_values(|l: Seq<char>| strip_cr(l))
    } else {
        p.drop_last().map_values(|l: Seq<char>| strip_cr(l)).push(p.last())
    }
}

/// `str::lines`, each line made a `String`. Claims: the lines `text_lines`
/// describes, as the documentation of `str::lines` states them.
#[verifier::external_body]
fn lines_of(s: &str) -> (r: Vec<String>)
    ensures
        r@.map_values(|l: String| l@) == text_lines(s@),
{
    s.lines().map(|l| l.to_owned()).collect()
}

/// The verdict on a whole log.
pub open spec fn chain_verdict(lines: Seq<Seq<char>>) -> (nat, bool) {
    chain_check(lines, 0, genesis())
}

/// The state after replaying lines: the largest sequence number seen and
/// the hash of the last line that has both a sequence number and a hash.
pub open spec fn replay(lines: Seq<Seq<char>>) -> (u64, Seq<char>)
    decreases lines.len(),
{
    if lines.len() == 0 {
        (0, genesis())
    } else {
        let (s, p) = replay(lines.drop_last());
        match parsed_text(lines.last()) {
            Some(v) => match (field_u64(v, "seq"@), field_str(v, "hash"@)) {
                (Some(n), Some(h)) => (if n > s { n } else { s }, h),
                _ => (s, p),
            },
            None => (s, p),
        }
    }
}

pub proof fn lemma_record_keys()
    ensures
        json::keys_distinct(
            seq![
                "seq"@,
                "ts"@,
                "request_id"@,
                "method"@,
                "params_redacted"@,
                "decision"@,
                "reason"@,
                "prev_hash"@,
            ],
        ),
        "hash"@ != "seq"@,
        "hash"@ != "ts"@,
        "hash"@ != "request_id"@,
        "hash"@ != "method"@,
        "hash"@ != "params_redacted"@,
        "hash"@ != "decision"@,
        "hash"@ != "reason"@,
        "hash"@ != "prev_hash"@,
{
    reveal_strlit("seq");
    reveal_strlit("ts");
    reveal_strlit("request_id");
    reveal_strlit("method");
    reveal_strlit("params_redacted");
    reveal_strlit("decision");
    reveal_strlit("reason");
    reveal_strlit("prev_hash");
    reveal_strlit("hash");
    assert("method"@[0] != "reason"@[0]);
    assert("hash"@[0] != "seq"@[0]);
    assert("hash"@[0] != "ts"@[0]);
    let keys = seq![
        "seq"@,
        "ts"@,
        "request_id"@,
        "method"@,
        "params_redacted"@,
        "decision"@,
        "reason"@,
        "prev_hash"@,
    ];
    assert forall|i: int, j: int| 0 <= i < j < keys.len() implies keys[i] != keys[j] by {
        if keys[i].len() == keys[j].len() {
            assert(keys[i][0] != keys[j][0]);
        }
    }
}

/// The state of a chain after writing `entries` from a fresh start.
pub open spec fn chain_state(entries: Seq<EntryView>) -> (u64, Seq<char>)
    decreases entries.len(),
{
    if entries.len() == 0 {
        (0, genesis())
    } else {
        let (s, p) = chain_state(entries.drop_last());
        let seq = (s + 1) as u64;
        (seq, digest_of(body_of(seq, entries.last(), p)))
    }
}

/// The `i`-th record written for `entries` from a fresh start.
pub open spec fn chain_record(entries: Seq<EntryView>, i: int) -> JsonView {
    let (s, p) = chain_state(entries.take(i));
    record_of((s + 1) as u64, entries[i], p)
}

proof fn lemma_body_map(seq: u64, e: EntryView, prev: Seq<char>)
    ensures
        object_of(body_pairs(seq, e, prev)) == Map::<Seq<char>, JsonView>::empty().insert(
            "seq"@,
            JsonView::Number(NumberView::UInt(seq)),
        ).insert("ts"@, JsonView::Str(e.ts)).insert(
            "request_id"@,
            JsonView::Str(e.request_id),
        ).insert("method"@, JsonView::Str(e.method)).insert("params_redacted"@, e.params).insert(
            "decision"@,
            JsonView::Str(e.decision),
        ).insert("reason"@, JsonView::Str(e.reason)).insert("prev_hash"@, JsonView::Str(prev)),
{
    let ps = body_pairs(seq, e, prev);
    reveal_with_fuel(object_of, 9);
    assert(ps.drop_last().drop_last().drop_last().drop_last().drop_last().drop_last().drop_last().drop_last().len() == 0);
}

proof fn lemma_record_json_ok(seq: u64, e: EntryView, prev: Seq<char>)
    requires
        json::json_ok(e.params, 126),
    ensures
        json::json_ok(record_of(seq, e, prev), 127),
{
    lemma_body_map(seq, e, prev);
    let m = object_of(body_pairs(seq, e, prev)).insert(
        "hash"@,
        JsonView::Str(digest_of(body_of(seq, e, prev))),
    );
    assert forall|k: Seq<char>| #[trigger] m.contains_key(k) implies json::json_ok(m[k], 126) by {}
}

/// The fields a written record carries.
pub proof fn lemma_record_fields(seq: u64, e: EntryView, prev: Seq<char>)
    ensures
        field_u64(record_of(seq, e, prev), "seq"@) == Some(seq),
        field_str(record_of(seq, e, prev), "prev_hash"@) == Some(prev),
        field_str(record_of(seq, e, prev), "hash"@) == Some(digest_of(body_of(seq, e, prev))),
        without(record_of(seq, e, prev), "hash"@) == body_of(seq, e, prev),
{
    lemma_record_keys();
    lemma_body_map(seq, e, prev);
    let m = object_of(body_pairs(seq, e, prev));
    assert(!m.contains_key("hash"@));
    assert(m.insert("hash"@, JsonView::Str(digest_of(body_of(seq, e, prev)))).remove("hash"@) =~= m);
}

/// Law: appending to a chain that holds `entries` (from a fresh start)
/// yields the next record of `entries + [e]` and the state after it, so
/// records written one by one form the chain that `chain_record` describes.
pub proof fn law_append_extends(
    entries: Seq<EntryView>,
    e: EntryView,
    line: Seq<char>,
    after: (u64, Seq<char>),
)
    requires
        entries.len() + 1 < u64::MAX,
        appends(chain_state(entries), e, line, after),
    ensures
        after == chain_state(entries.push(e)),
        line == printed(chain_record(entries.push(e), entries.len() as int)),
{
    let all = entries.push(e);
    assert(all.drop_last() =~= entries);
    assert(all.take(entries.len() as int) =~= entries);
}

proof fn lemma_split_lf_len(s: Seq<char>)
    ensures
        split_lf(s).len() >= 1,
    decreases s.len(),
{
    if s.len() > 0 {
        lemma_split_lf_len(s.drop_last());
    }
}

/// Appending text without a line feed extends the last piece.
proof fn lemma_split_lf_extend(a: Seq<char>, b: Seq<char>)
    requires
        forall|i: int| 0 <= i < b.len() ==> b[i] != '\n',
    ensures
        split_lf(a + b) == split_lf(a).update(
            split_lf(a).len() - 1,
            split_lf(a).last() + b,
        ),
    decreases b.len(),
{
    lemma_split_lf_len(a);
    if b.len() == 0 {
        assert(a + b =~= a);
        assert(split_lf(a).last() + b =~= split_lf(a).last());
        assert(split_lf(a).update(split_lf(a).len() - 1, split_lf(a).last()) =~= split_lf(a));
    } else {
        let bp = b.drop_last();
        lemma_split_lf_extend(a, bp);
        assert((a + b).drop_last() =~= a + bp);
        assert((a + b).last() == b.last());
        lemma_split_lf_len(a + bp);
        let pa = split_lf(a);
        let p = split_lf(a + bp);
        assert(b.last() != '\n');
        assert(split_lf(a + b) == p.update(p.len() - 1, p.last().push(b.last())));
        assert(p.len() == pa.len());
        assert(p.last() == pa.last() + bp);
        assert((pa.last() + bp).push(b.last()) =~= pa.last() + b);
        assert(p.update(p.len() - 1, p.last().push(b.last())) =~= pa.update(pa.len() - 1, pa.last() + b));
    }
}

/// Appending one line and a line feed to a log text that is empty or ends
/// in a line feed adds that line to its lines.
pub proof fn lemma_text_lines_append(content: Seq<char>, line: Seq<char>)
    requires
        content.len() == 0 || content.last() == '\n',
        forall|i: int| 0 <= i < line.len() ==> #[trigger] line[i] != '\n' && line[i] != '\r',
    ensures
        text_lines(content + line + seq!['\n']) == text_lines(content).push(line),
{
    let c2 = content + line;
    let full = c2 + seq!['\n'];
    lemma_split_lf_len(content);
    lemma_split_lf_extend(content, line);
    assert(full.drop_last() =~= c2);
    let pc = split_lf(content);
    assert(pc.last() == Seq::<char>::empty()) by {
        reveal_with_fuel(split_lf, 2);
        if content.len() > 0 {
            assert(split_lf(content) == split_lf(content.drop_last()).push(seq![]));
        }
    }
    assert(pc.last() + line =~= line);
    let p2 = split_lf(c2);
    assert(p2 =~= pc.drop_last().push(line));
    assert(split_lf(full) == p2.push(seq![]));
    assert(full.last() == '\n');
    assert(strip_cr(line) == line);
    if content.len() == 0 {
        assert(pc =~= seq![Seq::<char>::empty()]);
        assert(text_lines(content) == Seq::<Seq<char>>::empty());
        assert(text_lines(full) =~= seq![line]);
    } else {
        assert(text_lines(full) =~= pc.drop_last().push(line).map_values(|l: Seq<char>| strip_cr(l)));
        assert(text_lines(full) =~= text_lines(content).push(line));
    }
}

/// The hash at the end of a valid chain of lines (`None` if some line does
/// not continue the chain), read from the last line back.
pub open spec fn chain_tip(lines: Seq<Seq<char>>) -> Option<Seq<char>>
    decreases lines.len(),
{
    if lines.len() == 0 {
        Some(genesis())
    } else {
        match chain_tip(lines.drop_last()) {
            None => None,
            Some(p) => match parsed_text(lines.last()) {
                None => None,
                Some(v) => line_hash(v, lines.len() as int, p),
            },
        }
    }
}

proof fn lemma_tip_prefix_none(lines: Seq<Seq<char>>, n: int)
    requires
        0 <= n <= lines.len(),
        chain_tip(lines.take(n)) is None,
    ensures
        chain_tip(lines) is None,
    decreases lines.len() - n,
{
    if n < lines.len() {
        assert(lines.take(n + 1).drop_last() =~= lines.take(n));
        lemma_tip_prefix_none(lines, n + 1);
    } else {
        assert(lines.take(n) =~= lines);
    }
}

/// Checking from position `i` with the tip of the first `i` lines agrees
/// with the tip of all lines.
proof fn lemma_check_tip(lines: Seq<Seq<char>>, i: int, prev: Seq<char>)
    requires
        0 <= i <= lines.len(),
        chain_tip(lines.take(i)) == Some(prev),
    ensures
        (chain_check(lines, i as nat, prev) == (lines.len(), true)) <==> chain_tip(lines) is Some,
    decreases lines.len() - i,
{
    if i < lines.len() {
        assert(lines.take(i + 1).drop_last() =~= lines.take(i));
        assert(lines.take(i + 1).last() == lines[i]);
        match parsed_text(lines[i]) {
            None => {
                lemma_tip_prefix_none(lines, i + 1);
            },
            Some(v) => match line_hash(v, i + 1, prev) {
                None => {
                    lemma_tip_prefix_none(lines, i + 1);
                },
                Some(h) => {
                    lemma_check_tip(lines, i + 1, h);
                },
            },
        }
    } else {
        assert(lines.take(i) =~= lines);
    }
}

/// A log verifies in full exactly when its chain has a tip.
pub proof fn lemma_verdict_tip(lines: Seq<Seq<char>>)
    ensures
        (chain_verdict(lines) == (lines.len(), true)) <==> chain_tip(lines) is Some,
{
    assert(lines.take(0) =~= Seq::<Seq<char>>::empty());
    lemma_check_tip(lines, 0, genesis());
}

/// Reopening a valid log resumes at its last sequence number and hash.
proof fn lemma_replay_tip(lines: Seq<Seq<char>>)
    requires
        chain_tip(lines) is Some,
        lines.len() <= u64::MAX,
    ensures
        replay(lines) == (lines.len() as u64, chain_tip(lines)->Some_0),
    decreases lines.len(),
{
    if lines.len() > 0 {
        lemma_replay_tip(lines.drop_last());
    }
}

proof fn lemma_check_stops_at_broken_link(lines: Seq<Seq<char>>, k: nat, p: Seq<char>, i: int)
    requires
        k <= i < lines.len(),
        k == 0 ==> p == genesis(),
        k > 0 ==> (parsed_text(lines[k - 1]) matches Some(u) && field_str(u, "hash"@) == Some(p)),
        parsed_text(lines[i]) matches Some(v) && (i == 0 ==> field_str(v, "prev_hash"@) != Some(
            genesis(),
        )) && (i > 0 ==> (parsed_text(lines[i - 1]) matches Some(u) ==> field_str(v, "prev_hash"@)
            != field_str(u, "hash"@))),
    ensures
        chain_check(lines, k, p).0 <= i,
        !chain_check(lines, k, p).1,
    decreases i - k,
{
    if let Some(v) = parsed_text(lines[k as int]) {
        if let Some(h) = line_hash(v, k + 1int, p) {
            assert(k < i);
            lemma_check_stops_at_broken_link(lines, k + 1, h, i);
        }
    }
}

/// Law: a broken link is caught. When a line's `prev_hash` is not the
/// `hash` of the line before it (`"GENESIS"` for the first line), the log
/// does not verify, and the count of good records stops at or before that
/// line; so a log verifies in full only when every record links to the one
/// before it.
pub proof fn law_broken_link_detected(lines: Seq<Seq<char>>, i: int)
    requires
        0 <= i < lines.len(),
        parsed_text(lines[i]) matches Some(v) && (i == 0 ==> field_str(v, "prev_hash"@) != Some(
            genesis(),
        )) && (i > 0 ==> (parsed_text(lines[i - 1]) matches Some(u) ==> field_str(v, "prev_hash"@)
            != field_str(u, "hash"@))),
    ensures
        chain_verdict(lines).0 <= i,
        !chain_verdict(lines).1,
{
    lemma_check_stops_at_broken_link(lines, 0, genesis(), i);
}

/// Law: appending a record to a valid log keeps it valid. If a log's text
/// is empty or ends in a line feed and verifies in full, then writing the
/// next record from the state that reopening the log gives, and a line
/// feed, leaves a log that verifies in full, one record longer, and that
/// reopens to the writer's new state. The record's parameters hold no
/// floating-point number and are nested at most 126 deep (one deeper does
/// not parse back; a float may print to a text that parses to another).
pub proof fn law_append_keeps_log_valid(
    content: Seq<char>,
    e: EntryView,
    line: Seq<char>,
    after: (u64, Seq<char>),
)
    requires
        content.len() == 0 || content.last() == '\n',
        chain_verdict(text_lines(content)) == (text_lines(content).len(), true),
        text_lines(content).len() + 1 < u64::MAX,
        appends(replay(text_lines(content)), e, line, after),
        written(replay(text_lines(content)), e, line),
        json::json_ok(e.params, 126),
    ensures
        chain_verdict(text_lines(content + line + seq!['\n'])) == (text_lines(content).len() + 1, true),
        replay(text_lines(content + line + seq!['\n'])) == after,
{
    let lines = text_lines(content);
    lemma_verdict_tip(lines);
    lemma_replay_tip(lines);
    let tip = chain_tip(lines)->Some_0;
    let seq = (lines.len() + 1) as u64;
    lemma_text_lines_append(content, line);
    let all = lines.push(line);
    assert(all.drop_last() =~= lines);
    lemma_record_fields(seq, e, tip);
    assert(parsed_text(line) == Some(record_of(seq, e, tip)));
    assert(chain_tip(all) == Some(digest_of(body_of(seq, e, tip))));
    lemma_verdict_tip(all);
    lemma_replay_tip(all);
}

/// The state of the chain: the last sequence number written and the hash
/// of the last record.
pub struct Audit {
    seq: u64,
    prev_hash: String,
}

impl View for Audit {
    type V = (u64, Seq<char>);

    closed spec fn view(&self) -> (u64, Seq<char>) {
        (self.seq, self.prev_hash@)
    }
}

impl Audit {
    /// Continues the chain of an existing log: the largest sequence number
    /// and the hash of the last line that carries both. Lines that are not
    /// such records are skipped.
    pub fn open(lines: &Vec<String>) -> (r: Audit)
        ensures
            r@ == replay(lines@.map_values(|l: String| l@)),
    {
        let ghost texts = lines@.map_values(|l: String| l@);
        let mut seq: u64 = 0;
        let mut prev = "GENESIS".to_owned();
        let mut i: usize = 0;
        while i < lines.len()
            invariant
                texts == lines@.map_values(|l: String| l@),
                i <= lines@.len(),
                (seq, prev@) == replay(texts.take(i as int)),
            decreases lines@.len() - i,
        {
            proof {
                assert(texts.take(i + 1).drop_last() =~= texts.take(i as int));
                assert(texts.take(i + 1).last() == lines@[i as int]@);
            }
            if let Ok(v) = json::parse_text(lines[i].as_str()) {
                let s = match json::get(&v, "seq") {
                    Some(x) => json::as_u64(x),
                    None => None,
                };
                let h = match json::get(&v, "hash") {
                    Some(x) => json::as_str(x),
                    None => None,
                };
                if let (Some(s), Some(h)) = (s, h) {
                    if s > seq {
                        seq = s;
                    }
                    prev = h.to_owned();
                }
            }
            i = i + 1;
        }
        proof {
            assert(texts.take(lines@.len() as int) =~= texts);
        }
        Audit { seq, prev_hash: prev }
    }

    /// Continues the chain of a log file's text, split into lines as
    /// `str::lines` splits it (see `open`).
    pub fn open_content(content: &str) -> (r: Audit)
        ensures
            r@ == replay(text_lines(content@)),
    {
        let lines = lines_of(content);
        Audit::open(&lines)
    }

    /// A fresh chain: nothing written yet.
    pub fn new() -> (r: Audit)
        ensures
            r@ == (0u64, genesis()),
    {
        Audit { seq: 0, prev_hash: "GENESIS".to_owned() }
    }

    /// The sequence number of the last record.
    pub fn last_seq(&self) -> (r: u64)
        ensures
            r == self@.0,
    {
        self.seq
    }

    /// Appends a record with the given time stamp: returns the line to
    /// write (the record with its hash) and advances the chain.
    pub fn record_at(
        &mut self,
        ts: &str,
        request_id: &str,
        method: &str,
        params: serde_json::Value,
        decision: &str,
        reason: &str,
    ) -> (line: String)
        requires
            old(self)@.0 < u64::MAX,
        ensures
            appends(
                old(self)@,
                entry(ts@, request_id@, method@, json::json_view(params), decision@, reason@),
                line@,
                final(self)@,
            ),
            written(
                old(self)@,
                entry(ts@, request_id@, method@, json::json_view(params), decision@, reason@),
                line@,
            ),
    {
        let ghost pv = json::json_view(params);
        let seq = self.seq + 1;
        let pairs: Vec<(String, serde_json::Value)> = vec![
            ("seq".to_owned(), json::uint(seq)),
            ("ts".to_owned(), json::string(ts)),
            ("request_id".to_owned(), json::string(request_id)),
            ("method".to_owned(), json::string(method)),
            ("params_redacted".to_owned(), params),
            ("decision".to_owned(), json::string(decision)),
            ("reason".to_owned(), json::string(reason)),
            ("prev_hash".to_owned(), json::string(self.prev_hash.as_str())),
        ];
        let ghost e = EntryView {
            ts: ts@,
            request_id: request_id@,
            method: method@,
            params: pv,
            decision: decision@,
            reason: reason@,
        };
        proof {
            lemma_record_keys();
            assert(pairs@.map_values(|p: (String, serde_json::Value)| p.0@) =~= seq![
                "seq"@,
                "ts"@,
                "request_id"@,
                "method"@,
                "params_redacted"@,
                "decision"@,
                "reason"@,
                "prev_hash"@,
            ]);
            assert(pairs@.map_values(
                |p: (String, serde_json::Value)| (p.0@, json::json_view(p.1)),
            ) =~= body_pairs(seq, e, self.prev_hash@));
        }
        let mut rec = json::object(pairs);
        let canonical = json::print(&rec);
        let digest = sha256_digest(canonical.as_str().as_bytes());
        let hash = to_hex(digest.as_slice());
        json::insert_field(&mut rec, "hash", json::string(hash.as_str()));
        let line = json::print(&rec);
        proof {
            if json::json_ok(pv, 126) {
                lemma_record_json_ok(seq, e, self.prev_hash@);
            }
        }
        self.seq = seq;
        self.prev_hash = hash;
        line
    }

    /// Appends a record stamped with the current time (see `record_at`).
    /// The time stamp is whatever the clock gave.
    pub fn record(
        &mut self,
        request_id: &str,
        method: &str,
        params: serde_json::Value,
        decision: &str,
        reason: &str,
    ) -> (line: String)
        requires
            old(self)@.0 < u64::MAX,
        ensures
            exists|ts: Seq<char>|
                appends(
                    old(self)@,
                    #[trigger] entry(
                        ts,
                        request_id@,
                        method@,
                        json::json_view(params),
                        decision@,
                        reason@,
                    ),
                    line@,
                    final(self)@,
                ) && written(
                    old(self)@,
                    entry(ts, request_id@, method@, json::json_view(params), decision@, reason@),
                    line@,
                ),
    {
        let ts = now_rfc3339();
        self.record_at(ts.as_str(), request_id, method, params, decision, reason)
    }

    /// Checks a log file's text, split into lines as `str::lines` splits it
    /// (see `verify`).
    pub fn verify_content(content: &str) -> (r: (usize, bool))
        ensures
            (r.0 as nat, r.1) == chain_verdict(text_lines(content@)),
    {
        let lines = lines_of(content);
        Audit::verify(&lines)
    }

    /// Checks a log: returns the number of good records before the first
    /// bad one, and whether every line is a good record. A line is good
    /// when it is a JSON object whose `seq` is its position (from 1), whose
    /// `prev_hash` is the previous line's hash (`"GENESIS"` first), and
    /// whose `hash` is the digest of the record without its `hash` field.
    pub fn verify(lines: &Vec<String>) -> (r: (usize, bool))
        ensures
            (r.0 as nat, r.1) == chain_verdict(lines@.map_values(|l: String| l@)),
    {
        let ghost texts = lines@.map_values(|l: String| l@);
        let mut prev = "GENESIS".to_owned();
        let mut n: usize = 0;
        while n < lines.len()
            invariant
                texts == lines@.map_values(|l: String| l@),
                n <= lines@.len(),
                chain_check(texts, n as nat, prev@) == chain_verdict(texts),
            decreases lines@.len() - n,
        {
            assert(texts[n as int] == lines@[n as int]@);
            let mut v = match json::parse_text(lines[n].as_str()) {
                Ok(v) => v,
                Err(_) => return (n, false),
            };
            let expected_seq: u64 = (n + 1) as u64;
            let seq = match json::get(&v, "seq") {
                Some(x) => json::as_u64(x),
                None => None,
            };
            if seq != Some(expected_seq) {
                return (n, false);
            }
            let prev_ok = match json::get(&v, "prev_hash") {
                Some(x) => match json::as_str(x) {
                    Some(p) => same_text(p, prev.as_str()),
                    None => false,
                },
                None => false,
            };
            if !prev_ok {
                return (n, false);
            }
            let stored = match json::get(&v, "hash") {
                Some(x) => match json::as_str(x) {
                    Some(h) => h.to_owned(),
                    None => return (n, false),
                },
                None => return (n, false),
            };
            json::remove_field(&mut v, "hash");
            let canonical = json::print(&v);
            let digest = sha256_digest(canonical.as_str().as_bytes());
            let computed = to_hex(digest.as_slice());
            if !same_text(computed.as_str(), stored.as_str()) {
                return (n, false);
            }
            prev = stored;
            n = n + 1;
        }
        (n, true)
    }
}

} // verus!
