//! The request-interception and telemetry pipeline: the per-query state
//! machine that checks the block set exactly once and either synthesizes a
//! name-error or delegates; the telemetry record each handled query
//! appends; the batch buffer that a periodic flush swaps out wholesale;
//! and the flush payload, newline-delimited line-protocol text, gzipped.
//!
//! The embedder owns the clock, the lock around the batch, and the
//! network; nothing here suspends or performs I/O except the one
//! compression call behind its trusted wrapper.

use vstd::prelude::*;

use crate::blacklist::Blacklist;
use crate::decimal::{dec_text, push_u64};
use crate::fingerprint::fingerprint_spec;

verus! {

/// One telemetry record per handled query.
pub struct TelemetryEntry {
    /// When handling began, in milliseconds since the epoch.
    pub timestamp_ms: u64,
    /// The client address, in text form.
    pub src: Vec<u8>,
    /// The transport the query arrived over, in text form.
    pub protocol: Vec<u8>,
    /// The queried name.
    pub query: Vec<u8>,
    /// The query type, in text form.
    pub query_type: Vec<u8>,
    /// The outcome code of the response, in text form.
    pub response_code: Vec<u8>,
    /// Whether the block set decided this query.
    pub blocked: bool,
    /// Handling time in milliseconds.
    pub duration_ms: u64,
}

/// The mathematical shape of a telemetry record.
pub ghost struct TelemetryEntryV {
    pub timestamp_ms: u64,
    pub src: Seq<u8>,
    pub protocol: Seq<u8>,
    pub query: Seq<u8>,
    pub query_type: Seq<u8>,
    pub response_code: Seq<u8>,
    pub blocked: bool,
    pub duration_ms: u64,
}

impl View for TelemetryEntry {
    type V = TelemetryEntryV;

    open spec fn view(&self) -> TelemetryEntryV {
        TelemetryEntryV {
            timestamp_ms: self.timestamp_ms,
            src: self.src@,
            protocol: self.protocol@,
            query: self.query@,
            query_type: self.query_type@,
            response_code: self.response_code@,
            blocked: self.blocked,
            duration_ms: self.duration_ms,
        }
    }
}

/// The mathematical shape of an entry list.
pub open spec fn entries_view(v: Seq<TelemetryEntry>) -> Seq<TelemetryEntryV> {
    v.map_values(|e: TelemetryEntry| e@)
}

/// The bytes of ``"queries,src="``.
pub open spec fn lit_queries_src() -> Seq<u8> {
    seq![113u8, 117u8, 101u8, 114u8, 105u8, 101u8, 115u8, 44u8, 115u8, 114u8, 99u8, 61u8]
}

/// The bytes of ``",protocol="``.
pub open spec fn lit_protocol() -> Seq<u8> {
    seq![44u8, 112u8, 114u8, 111u8, 116u8, 111u8, 99u8, 111u8, 108u8, 61u8]
}

/// The bytes of ``",query="``.
pub open spec fn lit_query() -> Seq<u8> {
    seq![44u8, 113u8, 117u8, 101u8, 114u8, 121u8, 61u8]
}

/// The bytes of ``",type="``.
pub open spec fn lit_type() -> Seq<u8> {
    seq![44u8, 116u8, 121u8, 112u8, 101u8, 61u8]
}

/// The bytes of ``",response_code="``.
pub open spec fn lit_response_code() -> Seq<u8> {
    seq![44u8, 114u8, 101u8, 115u8, 112u8, 111u8, 110u8, 115u8, 101u8, 95u8, 99u8, 111u8, 100u8, 101u8, 61u8]
}

/// The bytes of ``",blocked="``.
pub open spec fn lit_blocked() -> Seq<u8> {
    seq![44u8, 98u8, 108u8, 111u8, 99u8, 107u8, 101u8, 100u8, 61u8]
}

/// The bytes of ``" duration="``.
pub open spec fn lit_duration() -> Seq<u8> {
    seq![32u8, 100u8, 117u8, 114u8, 97u8, 116u8, 105u8, 111u8, 110u8, 61u8]
}

/// The bytes of ``"Blocked"`, the outcome sentinel of a blocked query`.
pub open spec fn blocked_text() -> Seq<u8> {
    seq![66u8, 108u8, 111u8, 99u8, 107u8, 101u8, 100u8]
}

/// The bytes of ``"true"``.
pub open spec fn true_text() -> Seq<u8> {
    seq![116u8, 114u8, 117u8, 101u8]
}

/// The bytes of ``"false"``.
pub open spec fn false_text() -> Seq<u8> {
    seq![102u8, 97u8, 108u8, 115u8, 101u8]
}

/// The bytes of ``"Token "`, the bearer scheme of the Authorization header`.
pub open spec fn token_prefix() -> Seq<u8> {
    seq![84u8, 111u8, 107u8, 101u8, 110u8, 32u8]
}

/// The bytes of ``"api/v2/write?bucket="``.
pub open spec fn lit_write_path() -> Seq<u8> {
    seq![97u8, 112u8, 105u8, 47u8, 118u8, 50u8, 47u8, 119u8, 114u8, 105u8, 116u8, 101u8, 63u8, 98u8, 117u8, 99u8, 107u8, 101u8, 116u8, 61u8]
}

/// The bytes of ``"&org="``.
pub open spec fn lit_org() -> Seq<u8> {
    seq![38u8, 111u8, 114u8, 103u8, 61u8]
}

/// The bytes of ``"&precision=ms"``.
pub open spec fn lit_precision() -> Seq<u8> {
    seq![38u8, 112u8, 114u8, 101u8, 99u8, 105u8, 115u8, 105u8, 111u8, 110u8, 61u8, 109u8, 115u8]
}

/// A byte of outcome text as it appears on the line: spaces are escaped
/// with a backslash.
pub open spec fn esc_byte(c: u8) -> Seq<u8> {
    if c == 32 {
        seq![92u8, 32u8]
    } else {
        seq![c]
    }
}

/// Outcome text with every space escaped.
pub open spec fn escape_spaces(s: Seq<u8>) -> Seq<u8>
    decreases s.len(),
{
    if s.len() == 0 {
        Seq::empty()
    } else {
        escape_spaces(s.drop_last()) + esc_byte(s.last())
    }
}

/// `"true"` or `"false"`.
pub open spec fn bool_text(b: bool) -> Seq<u8> {
    if b {
        true_text()
    } else {
        false_text()
    }
}

/// One line of the flush payload: the stable delimited encoding of one
/// record. A blocked query carries the `"Blocked"` sentinel in place of
/// its outcome text; the line ends with a line feed.
pub open spec fn line_of(e: TelemetryEntryV) -> Seq<u8> {
    lit_queries_src() + e.src + lit_protocol() + e.protocol + lit_query() + e.query + lit_type()
        + e.query_type + lit_response_code() + (if e.blocked {
        blocked_text()
    } else {
        escape_spaces(e.response_code)
    }) + lit_blocked() + bool_text(e.blocked) + lit_duration() + dec_text(e.duration_ms as nat)
        + seq![117u8] + seq![32u8] + dec_text(e.timestamp_ms as nat) + seq![10u8]
}

/// The flush payload text: one line per record, in order.
pub open spec fn batch_text(es: Seq<TelemetryEntryV>) -> Seq<u8>
    decreases es.len(),
{
    if es.len() == 0 {
        Seq::empty()
    } else {
        batch_text(es.drop_last()) + line_of(es.last())
    }
}

fn push_lit_queries_src(out: &mut Vec<u8>)
    ensures
        final(out)@ == old(out)@ + lit_queries_src(),
{
    let ghost pre = out@;
    out.push(113);
    out.push(117);
    out.push(101);
    out.push(114);
    out.push(105);
    out.push(101);
    out.push(115);
    out.push(44);
    out.push(115);
    out.push(114);
    out.push(99);
    out.push(61);
    proof {
        assert(out@ =~= pre + lit_queries_src());
    }
}

fn push_lit_protocol(out: &mut Vec<u8>)
    ensures
        final(out)@ == old(out)@ + lit_protocol(),
{
    let ghost pre = out@;
    out.push(44);
    out.push(112);
    out.push(114);
    out.push(111);
    out.push(116);
    out.push(111);
    out.push(99);
    out.push(111);
    out.push(108);
    out.push(61);
    proof {
        assert(out@ =~= pre + lit_protocol());
    }
}

fn push_lit_query(out: &mut Vec<u8>)
    ensures
        final(out)@ == old(out)@ + lit_query(),
{
    let ghost pre = out@;
    out.push(44);
    out.push(113);
    out.push(117);
    out.push(101);
    out.push(114);
    out.push(121);
    out.push(61);
    proof {
        assert(out@ =~= pre + lit_query());
    }
}

fn push_lit_type(out: &mut Vec<u8>)
    ensures
        final(out)@ == old(out)@ + lit_type(),
{
    let ghost pre = out@;
    out.push(44);
    out.push(116);
    out.push(121);
    out.push(112);
    out.push(101);
    out.push(61);
    proof {
        assert(out@ =~= pre + lit_type());
    }
}

fn push_lit_response_code(out: &mut Vec<u8>)
    ensures
        final(out)@ == old(out)@ + lit_response_code(),
{
    let ghost pre = out@;
    out.push(44);
    out.push(114);
    out.push(101);
    out.push(115);
    out.push(112);
    out.push(111);
    out.push(110);
    out.push(115);
    out.push(101);
    out.push(95);
    out.push(99);
    out.push(111);
    out.push(100);
    out.push(101);
    out.push(61);
    proof {
        assert(out@ =~= pre + lit_response_code());
    }
}

fn push_lit_blocked(out: &mut Vec<u8>)
    ensures
        final(out)@ == old(out)@ + lit_blocked(),
{
    let ghost pre = out@;
    out.push(44);
    out.push(98);
    out.push(108);
    out.push(111);
    out.push(99);
    out.push(107);
    out.push(101);
    out.push(100);
    out.push(61);
    proof {
        assert(out@ =~= pre + lit_blocked());
    }
}

fn push_lit_duration(out: &mut Vec<u8>)
    ensures
        final(out)@ == old(out)@ + lit_duration(),
{
    let ghost pre = out@;
    out.push(32);
    out.push(100);
    out.push(117);
    out.push(114);
    out.push(97);
    out.push(116);
    out.push(105);
    out.push(111);
    out.push(110);
    out.push(61);
    proof {
        assert(out@ =~= pre + lit_duration());
    }
}

fn push_blocked_text(out: &mut Vec<u8>)
    ensures
        final(out)@ == old(out)@ + blocked_text(),
{
    let ghost pre = out@;
    out.push(66);
    out.push(108);
    out.push(111);
    out.push(99);
    out.push(107);
    out.push(101);
    out.push(100);
    proof {
        assert(out@ =~= pre + blocked_text());
    }
}

fn push_true_text(out: &mut Vec<u8>)
    ensures
        final(out)@ == old(out)@ + true_text(),
{
    let ghost pre = out@;
    out.push(116);
    out.push(114);
    out.push(117);
    out.push(101);
    proof {
        assert(out@ =~= pre + true_text());
    }
}

fn push_false_text(out: &mut Vec<u8>)
    ensures
        final(out)@ == old(out)@ + false_text(),
{
    let ghost pre = out@;
    out.push(102);
    out.push(97);
    out.push(108);
    out.push(115);
    out.push(101);
    proof {
        assert(out@ =~= pre + false_text());
    }
}

fn push_token_prefix(out: &mut Vec<u8>)
    ensures
        final(out)@ == old(out)@ + token_prefix(),
{
    let ghost pre = out@;
    out.push(84);
    out.push(111);
    out.push(107);
    out.push(101);
    out.push(110);
    out.push(32);
    proof {
        assert(out@ =~= pre + token_prefix());
    }
}

fn push_lit_write_path(out: &mut Vec<u8>)
    ensures
        final(out)@ == old(out)@ + lit_write_path(),
{
    let ghost pre = out@;
    out.push(97);
    out.push(112);
    out.push(105);
    out.push(47);
    out.push(118);
    out.push(50);
    out.push(47);
    out.push(119);
    out.push(114);
    out.push(105);
    out.push(116);
    out.push(101);
    out.push(63);
    out.push(98);
    out.push(117);
    out.push(99);
    out.push(107);
    out.push(101);
    out.push(116);
    out.push(61);
    proof {
        assert(out@ =~= pre + lit_write_path());
    }
}

fn push_lit_org(out: &mut Vec<u8>)
    ensures
        final(out)@ == old(out)@ + lit_org(),
{
    let ghost pre = out@;
    out.push(38);
    out.push(111);
    out.push(114);
    out.push(103);
    out.push(61);
    proof {
        assert(out@ =~= pre + lit_org());
    }
}

fn push_lit_precision(out: &mut Vec<u8>)
    ensures
        final(out)@ == old(out)@ + lit_precision(),
{
    let ghost pre = out@;
    out.push(38);
    out.push(112);
    out.push(114);
    out.push(101);
    out.push(99);
    out.push(105);
    out.push(115);
    out.push(105);
    out.push(111);
    out.push(110);
    out.push(61);
    out.push(109);
    out.push(115);
    proof {
        assert(out@ =~= pre + lit_precision());
    }
}

/// Append a whole byte vector.
fn push_all(out: &mut Vec<u8>, s: &Vec<u8>)
    ensures
        final(out)@ == old(out)@ + s@,
{
    let ghost pre = out@;
    let mut i: usize = 0;
    while i < s.len()
        invariant
            i <= s@.len(),
            out@ == pre + s@.take(i as int),
        decreases s@.len() - i,
    {
        out.push(s[i]);
        proof {
            assert(pre + s@.take(i + 1) =~= (pre + s@.take(i as int)).push(s@[i as int]));
        }
        i = i + 1;
    }
    proof {
        assert(s@.take(s@.len() as int) =~= s@);
    }
}

/// Append outcome text with every space escaped.
fn push_escaped(out: &mut Vec<u8>, s: &Vec<u8>)
    ensures
        final(out)@ == old(out)@ + escape_spaces(s@),
{
    let ghost pre = out@;
    let mut i: usize = 0;
    while i < s.len()
        invariant
            i <= s@.len(),
            out@ == pre + escape_spaces(s@.take(i as int)),
        decreases s@.len() - i,
    {
        let c = s[i];
        if c == 32 {
            out.push(92);
            out.push(32);
        } else {
            out.push(c);
        }
        proof {
            assert(s@.take(i + 1).drop_last() =~= s@.take(i as int));
            assert(s@.take(i + 1).last() == s@[i as int]);
            assert(out@ =~= pre + escape_spaces(s@.take(i + 1)));
        }
        i = i + 1;
    }
    proof {
        assert(s@.take(s@.len() as int) =~= s@);
    }
}

/// Render one record as its line.
#[verifier::rlimit(50)]
pub fn render_line(e: &TelemetryEntry) -> (r: Vec<u8>)
    ensures
        r@ == line_of(e@),
{
    let mut out: Vec<u8> = Vec::new();
    push_lit_queries_src(&mut out);
    push_all(&mut out, &e.src);
    push_lit_protocol(&mut out);
    push_all(&mut out, &e.protocol);
    push_lit_query(&mut out);
    push_all(&mut out, &e.query);
    push_lit_type(&mut out);
    push_all(&mut out, &e.query_type);
    push_lit_response_code(&mut out);
    if e.blocked {
        push_blocked_text(&mut out);
    } else {
        push_escaped(&mut out, &e.response_code);
    }
    push_lit_blocked(&mut out);
    if e.blocked {
        push_true_text(&mut out);
    } else {
        push_false_text(&mut out);
    }
    push_lit_duration(&mut out);
    push_u64(&mut out, e.duration_ms);
    out.push(117);
    out.push(32);
    push_u64(&mut out, e.timestamp_ms);
    out.push(10);
    proof {
        assert(out@ =~= line_of(e@));
    }
    out
}

/// Render a whole batch: one line per record, in order.
pub fn render_batch(entries: &Vec<TelemetryEntry>) -> (r: Vec<u8>)
    ensures
        r@ == batch_text(entries_view(entries@)),
{
    let mut out: Vec<u8> = Vec::new();
    let mut i: usize = 0;
    while i < entries.len()
        invariant
            i <= entries@.len(),
            out@ == batch_text(entries_view(entries@).take(i as int)),
        decreases entries@.len() - i,
    {
        let line = render_line(&entries[i]);
        push_all(&mut out, &line);
        proof {
            let ev = entries_view(entries@);
            assert(ev.take(i + 1).drop_last() =~= ev.take(i as int));
            assert(ev.take(i + 1).last() == ev[i as int]);
            assert(ev[i as int] == entries@[i as int]@);
        }
        i = i + 1;
    }
    proof {
        assert(entries_view(entries@).take(entries@.len() as int) =~= entries_view(entries@));
    }
    out
}

/// What the compression of a byte sequence yields. The stream is a
/// function of the input bytes alone; nothing further is assumed of it.
pub uninterp spec fn gzip_of(data: Seq<u8>) -> Seq<u8>;

/// Relies on flate2's `write::GzEncoder` at the default compression
/// level: its header is fixed (zero timestamp, fixed system byte), so the
/// compressed stream depends on the input bytes alone. Writing into a
/// `Vec` cannot fail, so the error arms are unreachable.
#[verifier::external_body]
fn gzip(data: &Vec<u8>) -> (r: Vec<u8>)
    ensures
        r@ == gzip_of(data@),
{
    let mut encoder = flate2::write::GzEncoder::new(Vec::new(), flate2::Compression::default());
    match std::io::Write::write_all(&mut encoder, data.as_slice()) {
        Ok(()) => {}
        Err(_) => return Vec::new(),
    }
    match encoder.finish() {
        Ok(buf) => buf,
        Err(_) => Vec::new(),
    }
}

/// The payload one flush interval sends: nothing at all for an empty
/// batch, else the compressed line-protocol text of the whole batch.
pub fn prepare_flush(entries: &Vec<TelemetryEntry>) -> (r: Option<Vec<u8>>)
    ensures
        (entries@.len() == 0) <==> (r is None),
        match r {
            Some(p) => p@ == gzip_of(batch_text(entries_view(entries@))),
            None => true,
        },
{
    if entries.len() == 0 {
        None
    } else {
        let text = render_batch(entries);
        Some(gzip(&text))
    }
}

/// The batch buffer: records accumulated since the last flush. The
/// embedder holds it under its exclusive lock, scoped to the append or
/// the swap, never across I/O.
pub struct TelemetryBatch {
    entries: Vec<TelemetryEntry>,
}

impl View for TelemetryBatch {
    type V = Seq<TelemetryEntryV>;

    closed spec fn view(&self) -> Seq<TelemetryEntryV> {
        entries_view(self.entries@)
    }
}

impl TelemetryBatch {
    /// An empty batch.
    pub fn new() -> (r: TelemetryBatch)
        ensures
            r@ == Seq::<TelemetryEntryV>::empty(),
    {
        let r = TelemetryBatch { entries: Vec::new() };
        proof {
            assert(r@ =~= Seq::<TelemetryEntryV>::empty());
        }
        r
    }

    /// The number of buffered records.
    pub fn len(&self) -> (r: usize)
        ensures
            r == self@.len(),
    {
        self.entries.len()
    }

    /// Append one record: every handled query appends exactly one.
    pub fn push(&mut self, e: TelemetryEntry)
        ensures
            final(self)@ == old(self)@.push(e@),
            final(self)@.len() == old(self)@.len() + 1,
    {
        let ghost ev = e@;
        self.entries.push(e);
        proof {
            assert(self@ =~= old(self)@.push(ev));
        }
    }

    /// Swap the buffer out for an empty one, returning every buffered
    /// record; the caller flushes them outside the lock.
    pub fn take(&mut self) -> (r: Vec<TelemetryEntry>)
        ensures
            final(self)@ == Seq::<TelemetryEntryV>::empty(),
            entries_view(r@) == old(self)@,
    {
        let mut swapped: Vec<TelemetryEntry> = Vec::new();
        core::mem::swap(&mut swapped, &mut self.entries);
        proof {
            assert(self@ =~= Seq::<TelemetryEntryV>::empty());
        }
        swapped
    }
}

/// The per-query decision the pipeline makes before anything else.
#[derive(Clone, Copy, PartialEq, Eq, Structural, Debug)]
pub enum QueryAction {
    /// The name is in the block set: synthesize a name-error response
    /// without consulting the router or any upstream.
    RespondBlocked,
    /// The name is not blocked: hand the query to the router's handler.
    Delegate,
}

/// Decide one query with exactly one membership check: blocked names are
/// answered locally, everything else is delegated.
pub fn intercept(blocklist: &Blacklist, qname: &Vec<u8>) -> (r: QueryAction)
    requires
        blocklist.wf(),
    ensures
        (r == QueryAction::RespondBlocked) <==> blocklist.model().contains(
            fingerprint_spec(qname@),
        ),
        (r == QueryAction::Delegate) <==> !blocklist.model().contains(fingerprint_spec(qname@)),
{
    if blocklist.is_blocked(qname) {
        QueryAction::RespondBlocked
    } else {
        QueryAction::Delegate
    }
}

/// Build the record of one handled query from the two clock readings and
/// the response's fields. The duration is the elapsed time, clamped at
/// zero should the clock have stepped backwards.
pub fn finish_entry(
    begin_ms: u64,
    end_ms: u64,
    src: Vec<u8>,
    protocol: Vec<u8>,
    query: Vec<u8>,
    query_type: Vec<u8>,
    response_code: Vec<u8>,
    blocked: bool,
) -> (e: TelemetryEntry)
    ensures
        e@.timestamp_ms == begin_ms,
        e@.duration_ms == if end_ms >= begin_ms {
            end_ms - begin_ms
        } else {
            0
        },
        e@.src == src@,
        e@.protocol == protocol@,
        e@.query == query@,
        e@.query_type == query_type@,
        e@.response_code == response_code@,
        e@.blocked == blocked,
{
    let duration_ms = if end_ms >= begin_ms {
        end_ms - begin_ms
    } else {
        0
    };
    TelemetryEntry {
        timestamp_ms: begin_ms,
        src,
        protocol,
        query,
        query_type,
        response_code,
        blocked,
        duration_ms,
    }
}

/// The Authorization header value: the bearer scheme, then the token.
pub open spec fn auth_header_spec(token: Seq<u8>) -> Seq<u8> {
    token_prefix() + token
}

/// Build the Authorization header value for a credential.
pub fn auth_header_value(token: &Vec<u8>) -> (r: Vec<u8>)
    ensures
        r@ == auth_header_spec(token@),
{
    let mut out: Vec<u8> = Vec::new();
    push_token_prefix(&mut out);
    push_all(&mut out, token);
    out
}

/// The metrics write path with its query string: bucket, organization,
/// millisecond precision.
pub open spec fn write_endpoint_spec(bucket: Seq<u8>, org: Seq<u8>) -> Seq<u8> {
    lit_write_path() + bucket + lit_org() + org + lit_precision()
}

/// Build the metrics write path for a bucket and an organization.
pub fn write_endpoint_path(bucket: &Vec<u8>, org: &Vec<u8>) -> (r: Vec<u8>)
    ensures
        r@ == write_endpoint_spec(bucket@, org@),
{
    let mut out: Vec<u8> = Vec::new();
    push_lit_write_path(&mut out);
    push_all(&mut out, bucket);
    push_lit_org(&mut out);
    push_all(&mut out, org);
    push_lit_precision(&mut out);
    out
}

} // verus!
