//! The stream normalizer: turns the raw byte chunks of a provider's
//! server-sent-event response into normalized `{"message": <text>}` lines.
//! Chunk boundaries are arbitrary, so a logical `data:` frame may arrive in
//! pieces; the normalizer buffers what it cannot yet decode and replays it
//! when more bytes arrive, per the provider's parse policy.

use vstd::prelude::*;
use vstd::slice::slice_subrange;
use vstd::utf8::valid_utf8;
use crate::jsontext::{normalized_line_of, normalized_line};
use crate::provider::{ProviderKind, ParsePolicy};

verus! {

pub const LINE_FEED: u8 = 10;

pub const CARRIAGE_RETURN: u8 = 13;

/// The bytes of `data: `, the prefix that marks a candidate event line.
pub open spec fn data_prefix() -> Seq<u8> {
    seq![100u8, 97u8, 116u8, 97u8, 58u8, 32u8]
}

/// The bytes of `data: [DONE]`, the sentinel line that ends a stream.
pub open spec fn sentinel() -> Seq<u8> {
    seq![100u8, 97u8, 116u8, 97u8, 58u8, 32u8, 91u8, 68u8, 79u8, 78u8, 69u8, 93u8]
}

pub open spec fn is_ws(b: u8) -> bool {
    b == 32 || (9 <= b && b <= 13)
}

pub open spec fn trim_front(l: Seq<u8>) -> Seq<u8>
    decreases l.len(),
{
    if l.len() > 0 && is_ws(l[0]) {
        trim_front(l.drop_first())
    } else {
        l
    }
}

pub open spec fn trim_back(l: Seq<u8>) -> Seq<u8>
    decreases l.len(),
{
    if l.len() > 0 && is_ws(l.last()) {
        trim_back(l.drop_last())
    } else {
        l
    }
}

/// The line with its surrounding ASCII whitespace removed, as the sentinel
/// comparison sees it.
pub open spec fn trim_of(l: Seq<u8>) -> Seq<u8> {
    trim_back(trim_front(l))
}

/// A trailing carriage return is part of the line break, not of the line.
pub open spec fn strip_cr(l: Seq<u8>) -> Seq<u8> {
    if l.len() > 0 && l.last() == CARRIAGE_RETURN {
        l.drop_last()
    } else {
        l
    }
}

pub open spec fn has_data_prefix(l: Seq<u8>) -> bool {
    l.len() >= 6 && l.subrange(0, 6) == data_prefix()
}

/// The line split the normalizer performs on its buffer: segments between
/// line feeds, with an unterminated final segment kept and an empty one
/// dropped.
pub open spec fn lines_from(b: Seq<u8>, i: int, cur: Seq<u8>, acc: Seq<Seq<u8>>) -> Seq<Seq<u8>>
    decreases b.len() - i,
{
    if i < 0 || i >= b.len() {
        if cur.len() == 0 {
            acc
        } else {
            acc.push(cur)
        }
    } else if b[i] == LINE_FEED {
        lines_from(b, i + 1, Seq::empty(), acc.push(cur))
    } else {
        lines_from(b, i + 1, cur.push(b[i]), acc)
    }
}

pub open spec fn spec_lines(b: Seq<u8>) -> Seq<Seq<u8>> {
    lines_from(b, 0, Seq::empty(), Seq::empty())
}

/// What a Gemini-style event line contains: `None` when the line is not one
/// well-formed JSON event (not UTF-8, or not parseable), otherwise every
/// text fragment under its `candidates[0].content.parts[*].text` path, in
/// order. Uninterpreted: the JSON parse is serde_json's work, a function of
/// the line's bytes alone.
pub uninterp spec fn gemini_line_texts(line: Seq<u8>) -> Option<Seq<Seq<char>>>;

/// What a Mistral-style (or GPT-style) event line contains: the outer
/// `None` when the line is not one well-formed JSON event, otherwise the
/// text under `choices[0].delta.content` if that path holds a string.
pub uninterp spec fn mistral_line_text(line: Seq<u8>) -> Option<Option<Seq<char>>>;

/// Relies on serde_json::from_str and serde_json::Value::{get, as_array,
/// as_str} and std::str::from_utf8: decodes one Gemini-style event line and
/// collects the text fragments on its `candidates[0].content.parts[*].text`
/// path; the result depends on the line's bytes alone.
#[verifier::external_body]
fn gemini_extract(line: &[u8]) -> (r: Option<Vec<String>>)
    ensures
        r.deep_view() == gemini_line_texts(line@),
{
    let s = match std::str::from_utf8(line) { Ok(s) => s, Err(_) => return None };
    let v: serde_json::Value = match serde_json::from_str(s) { Ok(v) => v, Err(_) => return None };
    let mut texts: Vec<String> = Vec::new();
    let parts = v.get("candidates").and_then(|c| c.get(0)).and_then(|c| c.get("content"))
        .and_then(|c| c.get("parts")).and_then(|p| p.as_array());
    if let Some(parts) = parts {
        for part in parts {
            if let Some(t) = part.get("text").and_then(|t| t.as_str()) {
                texts.push(t.to_string());
            }
        }
    }
    Some(texts)
}

/// Relies on serde_json::from_str and serde_json::Value::{get, as_str} and
/// std::str::from_utf8: decodes one Mistral-style event line and takes the
/// string under its `choices[0].delta.content` path; the result depends on
/// the line's bytes alone.
#[verifier::external_body]
fn mistral_extract(line: &[u8]) -> (r: Option<Option<String>>)
    ensures
        r.deep_view() == mistral_line_text(line@),
{
    let s = match std::str::from_utf8(line) { Ok(s) => s, Err(_) => return None };
    let v: serde_json::Value = match serde_json::from_str(s) { Ok(v) => v, Err(_) => return None };
    let t = v.get("choices").and_then(|c| c.get(0)).and_then(|c| c.get("delta"))
        .and_then(|d| d.get("content")).and_then(|c| c.as_str()).map(|t| t.to_string());
    Some(t)
}

/// How one line of the buffer is handled.
pub enum LineClass {
    /// The `data: [DONE]` sentinel: the stream is over.
    Sentinel,
    /// A decoded event line: these normalized lines are emitted.
    Emit(Seq<Seq<char>>),
    /// An undecodable candidate line under the buffering policy: these bytes
    /// stay in the buffer for the next read.
    Keep(Seq<u8>),
    /// An undecodable candidate line under the fatal policy: the stream
    /// aborts.
    Broken,
    /// A line without the `data: ` prefix: ignored.
    Skip,
}

/// Classifies one raw line of the buffer, exactly as the normalizer treats
/// it: sentinel first, then the `data: ` prefix, then the provider-specific
/// event schema under the provider's parse policy.
pub open spec fn classify(kind: ProviderKind, policy: ParsePolicy, raw: Seq<u8>) -> LineClass {
    let line = strip_cr(raw);
    if trim_of(line) == sentinel() {
        LineClass::Sentinel
    } else if has_data_prefix(line) {
        let payload = line.skip(6);
        match kind {
            ProviderKind::Gemini => match gemini_line_texts(payload) {
                Some(ts) => LineClass::Emit(ts.map_values(|t: Seq<char>| normalized_line_of(t))),
                None => if policy is FatalAbort {
                    LineClass::Broken
                } else {
                    LineClass::Keep(data_prefix() + payload)
                },
            },
            _ => match mistral_line_text(payload) {
                Some(Some(t)) => LineClass::Emit(seq![normalized_line_of(t)]),
                Some(None) => LineClass::Emit(Seq::empty()),
                None => if policy is FatalAbort {
                    LineClass::Broken
                } else {
                    LineClass::Keep(data_prefix() + payload)
                },
            },
        }
    } else {
        LineClass::Skip
    }
}

/// What one whole pass over the buffer's lines comes to.
#[derive(Clone, Copy, PartialEq, Eq, Structural, Debug)]
pub enum RunOutcome {
    /// The stream stays open: events go out, kept bytes stay buffered.
    Proceed,
    /// The sentinel was seen: the stream ends cleanly, nothing is emitted.
    Finish,
    /// A line was undecodable under the fatal policy: the stream aborts.
    Fail,
}

/// Folds the classification over the lines from position `i` on, with the
/// events and kept bytes gathered so far. The sentinel closes the stream
/// but still hands over the batch gathered before it — no produced
/// fragment is dropped; a fatal line aborts with nothing.
pub open spec fn run_from(
    kind: ProviderKind,
    policy: ParsePolicy,
    lines: Seq<Seq<u8>>,
    i: int,
    events: Seq<Seq<char>>,
    kept: Seq<u8>,
) -> (RunOutcome, Seq<Seq<char>>, Seq<u8>)
    decreases lines.len() - i,
{
    if i < 0 || i >= lines.len() {
        (RunOutcome::Proceed, events, kept)
    } else {
        match classify(kind, policy, lines[i]) {
            LineClass::Sentinel => (RunOutcome::Finish, events, Seq::empty()),
            LineClass::Broken => (RunOutcome::Fail, Seq::empty(), Seq::empty()),
            LineClass::Emit(es) => run_from(kind, policy, lines, i + 1, events + es, kept),
            LineClass::Keep(ks) => run_from(kind, policy, lines, i + 1, events, kept + ks),
            LineClass::Skip => run_from(kind, policy, lines, i + 1, events, kept),
        }
    }
}

/// What one upstream read does to the normalizer, as a function of the
/// bytes it has to work on: the outcome, the normalized lines to emit, and
/// the bytes to keep for the next read. Bytes that no further input can
/// make valid UTF-8 abort the whole stream before any line is looked at.
pub open spec fn run(kind: ProviderKind, policy: ParsePolicy, bytes: Seq<u8>) -> (RunOutcome, Seq<
    Seq<char>,
>, Seq<u8>) {
    if utf8_malformed_of(bytes) {
        (RunOutcome::Fail, Seq::empty(), Seq::empty())
    } else {
        run_from(kind, policy, spec_lines(bytes), 0, Seq::empty(), Seq::empty())
    }
}

/// True when the bytes hold a sequence that no further input can make
/// valid UTF-8 — as opposed to well-formed text that merely ends in the
/// middle of a character, which later bytes may complete. Uninterpreted:
/// the triage is the standard decoder's work.
pub uninterp spec fn utf8_malformed_of(b: Seq<u8>) -> bool;

/// Relies on std::str::from_utf8 and Utf8Error::error_len: an error that
/// names a length marks an invalid sequence, an error without one only an
/// input that ended mid-character, and valid UTF-8 raises no error at all.
#[verifier::external_body]
fn utf8_malformed(b: &[u8]) -> (r: bool)
    ensures
        r == utf8_malformed_of(b@),
        valid_utf8(b@) ==> !r,
{
    match std::str::from_utf8(b) {
        Ok(_) => false,
        Err(e) => e.error_len().is_some(),
    }
}

fn split_lines(b: &Vec<u8>) -> (r: Vec<Vec<u8>>)
    ensures
        r.deep_view() == spec_lines(b@),
{
    let mut acc: Vec<Vec<u8>> = Vec::new();
    let mut cur: Vec<u8> = Vec::new();
    let mut i: usize = 0;
    proof {
        assert(acc.deep_view() =~~= Seq::<Seq<u8>>::empty());
        assert(cur@ =~= Seq::<u8>::empty());
    }
    while i < b.len()
        invariant
            i <= b.len(),
            spec_lines(b@) == lines_from(b@, i as int, cur@, acc.deep_view()),
        decreases b.len() - i,
    {
        let ghost acc0 = acc.deep_view();
        let ghost cur0 = cur@;
        if b[i] == LINE_FEED {
            acc.push(cur);
            cur = Vec::new();
            proof {
                assert(acc.deep_view() =~~= acc0.push(cur0));
                assert(cur@ =~= Seq::<u8>::empty());
            }
        } else {
            cur.push(b[i]);
        }
        i += 1;
    }
    if cur.len() > 0 {
        let ghost acc0 = acc.deep_view();
        let ghost cur0 = cur@;
        acc.push(cur);
        proof {
            assert(acc.deep_view() =~~= acc0.push(cur0));
        }
    }
    acc
}

proof fn lemma_trim_front_skip(s: Seq<u8>, i: int)
    requires
        0 <= i <= s.len(),
        forall|j: int| 0 <= j < i ==> is_ws(s[j]),
        i < s.len() ==> !is_ws(s[i]),
    ensures
        trim_front(s) == s.skip(i),
    decreases i,
{
    if i == 0 {
        assert(s.skip(0) =~= s);
    } else {
        let t = s.drop_first();
        assert(t =~= s.skip(1));
        assert forall|j: int| 0 <= j < i - 1 implies is_ws(t[j]) by {
            assert(t[j] == s[j + 1]);
        }
        assert(i - 1 < t.len() ==> !is_ws(t[i - 1]));
        lemma_trim_front_skip(t, i - 1);
        assert(t.skip(i - 1) =~= s.skip(i));
    }
}

proof fn lemma_trim_back_take(s: Seq<u8>, m: int)
    requires
        0 <= m <= s.len(),
        forall|j: int| m <= j < s.len() ==> is_ws(s[j]),
        m > 0 ==> !is_ws(s[m - 1]),
    ensures
        trim_back(s) == s.take(m),
    decreases s.len() - m,
{
    if m == s.len() {
        assert(s.take(m) =~= s);
    } else {
        assert(is_ws(s.last()));
        let t = s.drop_last();
        assert(t =~= s.take(s.len() - 1));
        assert forall|j: int| m <= j < t.len() implies is_ws(t[j]) by {
            assert(t[j] == s[j]);
        }
        assert(m > 0 ==> t[m - 1] == s[m - 1]);
        lemma_trim_back_take(t, m);
        assert(t.take(m) =~= s.take(m));
    }
}

fn byte_is_ws(b: u8) -> (r: bool)
    ensures
        r == is_ws(b),
{
    b == 32 || (9 <= b && b <= 13)
}

fn is_sentinel_line(l: &[u8]) -> (b: bool)
    ensures
        b == (trim_of(l@) == sentinel()),
{
    let n: usize = l.len();
    let mut start: usize = 0;
    while start < n && byte_is_ws(l[start])
        invariant
            start <= n,
            n == l@.len(),
            forall|j: int| 0 <= j < start ==> is_ws(l@[j]),
        decreases n - start,
    {
        start += 1;
    }
    proof {
        lemma_trim_front_skip(l@, start as int);
    }
    if start == n {
        proof {
            assert(l@.skip(start as int) =~= Seq::<u8>::empty());
            assert(trim_of(l@) =~= Seq::<u8>::empty());
            assert(sentinel().len() == 12);
        }
        return false;
    }
    let mut end: usize = n;
    while end > start && byte_is_ws(l[end - 1])
        invariant
            start <= end <= n,
            n == l@.len(),
            forall|j: int| end <= j < n ==> is_ws(l@[j]),
        decreases end,
    {
        end -= 1;
    }
    proof {
        let t = l@.skip(start as int);
        let m = end - start;
        assert forall|j: int| m <= j < t.len() implies is_ws(t[j]) by {
            assert(t[j] == l@[start + j]);
        }
        assert(m > 0 ==> t[m - 1] == l@[end - 1]);
        lemma_trim_back_take(t, m as int);
        assert(trim_of(l@) =~= l@.subrange(start as int, end as int));
    }
    if end - start != 12 {
        proof {
            assert(trim_of(l@).len() != sentinel().len());
        }
        return false;
    }
    let hit = l[start] == 100 && l[start + 1] == 97 && l[start + 2] == 116 && l[start + 3] == 97
        && l[start + 4] == 58 && l[start + 5] == 32 && l[start + 6] == 91 && l[start + 7] == 68
        && l[start + 8] == 79 && l[start + 9] == 78 && l[start + 10] == 69 && l[start + 11] == 93;
    proof {
        let tr = trim_of(l@);
        assert forall|k: int| 0 <= k < 12 implies tr[k] == l@[start + k] by {
        }
        if hit {
            assert(tr =~= sentinel());
        } else {
            assert(tr != sentinel());
        }
    }
    hit
}

fn has_data_prefix_exec(l: &[u8]) -> (b: bool)
    ensures
        b == has_data_prefix(l@),
{
    if l.len() < 6 {
        return false;
    }
    let hit = l[0] == 100 && l[1] == 97 && l[2] == 116 && l[3] == 97 && l[4] == 58 && l[5] == 32;
    proof {
        let pre = l@.subrange(0, 6);
        assert forall|k: int| 0 <= k < 6 implies pre[k] == l@[k] by {
        }
        if hit {
            assert(pre =~= data_prefix());
        } else {
            assert(pre != data_prefix());
        }
    }
    hit
}

/// Appends a retained candidate line to the kept buffer, re-prefixed with
/// `data: ` so the next read's line split sees it whole again.
fn push_kept(kept: &mut Vec<u8>, payload: &[u8])
    ensures
        final(kept)@ == old(kept)@ + data_prefix() + payload@,
{
    let ghost k0 = kept@;
    kept.push(100);
    kept.push(97);
    kept.push(116);
    kept.push(97);
    kept.push(58);
    kept.push(32);
    proof {
        assert(kept@ =~= k0 + data_prefix());
    }
    let mut pi: usize = 0;
    while pi < payload.len()
        invariant
            pi <= payload.len(),
            kept@ =~= k0 + data_prefix() + payload@.take(pi as int),
        decreases payload.len() - pi,
    {
        kept.push(payload[pi]);
        proof {
            assert(kept@ =~= k0 + data_prefix() + payload@.take(pi as int + 1));
        }
        pi += 1;
    }
    proof {
        assert(payload@.take(payload@.len() as int) =~= payload@);
    }
}

/// What one call of `feed` hands back: a batch of normalized lines
/// (possibly empty: nothing decodable yet, stream still open), a clean end
/// carrying the batch gathered before the sentinel, or a fatal failure.
pub enum FeedOutcome {
    Events(Vec<String>),
    Done(Vec<String>),
    Fatal,
}

/// The stream normalizer for one upstream response: the provider kind that
/// fixes the event schema, the parse policy for undecodable lines, the text
/// buffer of bytes held back between reads, and whether the stream is over.
pub struct Normalizer {
    pub kind: ProviderKind,
    pub policy: ParsePolicy,
    pub buf: Vec<u8>,
    pub done: bool,
}

impl Normalizer {
    /// A fresh normalizer with the provider family's shipped parse policy.
    pub fn new(kind: ProviderKind) -> (n: Normalizer)
        ensures
            n.kind == kind,
            n.policy == kind.spec_default_policy(),
            n.buf@ == Seq::<u8>::empty(),
            !n.done,
    {
        let n = Normalizer { kind, policy: kind.default_policy(), buf: Vec::new(), done: false };
        proof {
            assert(n.buf@ =~= Seq::<u8>::empty());
        }
        n
    }

    /// A fresh normalizer with an explicitly chosen parse policy.
    pub fn with_policy(kind: ProviderKind, policy: ParsePolicy) -> (n: Normalizer)
        ensures
            n.kind == kind,
            n.policy == policy,
            n.buf@ == Seq::<u8>::empty(),
            !n.done,
    {
        let n = Normalizer { kind, policy, buf: Vec::new(), done: false };
        proof {
            assert(n.buf@ =~= Seq::<u8>::empty());
        }
        n
    }

    /// Feeds one upstream chunk through the normalizer: exactly the batch,
    /// clean end, or abort that `run` prescribes for the buffered bytes plus
    /// this chunk. A sentinel still delivers the batch gathered before it in
    /// the same read. Once the stream is over, every further feed is a clean
    /// end with no events.
    pub fn feed(&mut self, chunk: &[u8]) -> (r: FeedOutcome)
        ensures
            old(self).done ==> (r matches FeedOutcome::Done(es) && es@.len() == 0 && *final(self)
                == *old(self)),
            !old(self).done ==> ({
                let m = run(old(self).kind, old(self).policy, old(self).buf@ + chunk@);
                &&& final(self).kind == old(self).kind
                &&& final(self).policy == old(self).policy
                &&& (m.0 is Proceed ==> (r matches FeedOutcome::Events(es) && es.deep_view() == m.1
                    && final(self).buf@ == m.2 && !final(self).done))
                &&& (m.0 is Finish ==> (r matches FeedOutcome::Done(es) && es.deep_view() == m.1
                    && final(self).done))
                &&& (m.0 is Fail ==> r is Fatal && final(self).done)
            }),
    {
        if self.done {
            return FeedOutcome::Done(Vec::new());
        }
        let ghost kind = self.kind;
        let ghost policy = self.policy;
        let ghost bytes0 = self.buf@ + chunk@;
        let mut all: Vec<u8> = Vec::new();
        let mut bi: usize = 0;
        proof {
            assert(all@ =~= self.buf@.take(0));
        }
        while bi < self.buf.len()
            invariant
                *self == *old(self),
                bi <= self.buf.len(),
                all@ == self.buf@.take(bi as int),
            decreases self.buf.len() - bi,
        {
            all.push(self.buf[bi]);
            proof {
                assert(all@ =~= self.buf@.take(bi as int + 1));
            }
            bi += 1;
        }
        proof {
            assert(self.buf@.take(self.buf@.len() as int) =~= self.buf@);
        }
        let mut ci: usize = 0;
        proof {
            assert(all@ =~= old(self).buf@ + chunk@.take(0));
        }
        while ci < chunk.len()
            invariant
                *self == *old(self),
                ci <= chunk.len(),
                all@ == old(self).buf@ + chunk@.take(ci as int),
            decreases chunk.len() - ci,
        {
            all.push(chunk[ci]);
            proof {
                assert(all@ =~= old(self).buf@ + chunk@.take(ci as int + 1));
            }
            ci += 1;
        }
        proof {
            assert(chunk@.take(chunk@.len() as int) =~= chunk@);
            assert(all@ == bytes0);
        }
        if utf8_malformed(all.as_slice()) {
            self.done = true;
            self.buf = Vec::new();
            return FeedOutcome::Fatal;
        }
        let lines = split_lines(&all);
        let ghost ls = lines.deep_view();
        let mut events: Vec<String> = Vec::new();
        let mut kept: Vec<u8> = Vec::new();
        let mut li: usize = 0;
        proof {
            assert(events.deep_view() =~~= Seq::<Seq<char>>::empty());
            assert(kept@ =~= Seq::<u8>::empty());
        }
        while li < lines.len()
            invariant
                *self == *old(self),
                !old(self).done,
                kind == old(self).kind,
                policy == old(self).policy,
                li <= lines.len(),
                bytes0 == old(self).buf@ + chunk@,
                !utf8_malformed_of(bytes0),
                ls == lines.deep_view(),
                ls.len() == lines@.len(),
                ls == spec_lines(bytes0),
                run_from(kind, policy, ls, 0, Seq::empty(), Seq::empty()) == run_from(
                    kind,
                    policy,
                    ls,
                    li as int,
                    events.deep_view(),
                    kept@,
                ),
            decreases lines.len() - li,
        {
            let rawline: &[u8] = lines[li].as_slice();
            proof {
                assert(rawline@ =~= ls[li as int]);
            }
            let line: &[u8] = if rawline.len() > 0 && rawline[rawline.len() - 1]
                == CARRIAGE_RETURN {
                slice_subrange(rawline, 0, rawline.len() - 1)
            } else {
                rawline
            };
            proof {
                assert(line@ =~= strip_cr(ls[li as int]));
            }
            let ghost es0 = events.deep_view();
            let ghost k0 = kept@;
            let ghost cls = classify(kind, policy, ls[li as int]);
            if is_sentinel_line(line) {
                proof {
                    assert(cls is Sentinel);
                    assert(run_from(kind, policy, ls, li as int, es0, k0) == (RunOutcome::Finish,
                        es0, Seq::<u8>::empty()));
                }
                self.done = true;
                self.buf = Vec::new();
                return FeedOutcome::Done(events);
            }
            if has_data_prefix_exec(line) {
                let payload: &[u8] = slice_subrange(line, 6, line.len());
                proof {
                    assert(payload@ =~= strip_cr(ls[li as int]).skip(6));
                }
                let fatal: bool = match self.kind {
                    ProviderKind::Gemini => {
                        match gemini_extract(payload) {
                            Some(texts) => {
                                let ghost ts = gemini_line_texts(payload@)->Some_0;
                                let ghost emitted = ts.map_values(
                                    |t: Seq<char>| normalized_line_of(t),
                                );
                                proof {
                                    assert(texts.deep_view() == ts);
                                    assert(cls == LineClass::Emit(emitted));
                                }
                                let mut ti: usize = 0;
                                while ti < texts.len()
                                    invariant
                                        ti <= texts.len(),
                                        ts == texts.deep_view(),
                                        ts.len() == texts@.len(),
                                        emitted == ts.map_values(
                                            |t: Seq<char>| normalized_line_of(t),
                                        ),
                                        events.deep_view() == es0 + emitted.take(ti as int),
                                    decreases texts.len() - ti,
                                {
                                    let nl = normalized_line(texts[ti].as_str());
                                    let ghost dv0 = events.deep_view();
                                    events.push(nl);
                                    proof {
                                        assert(texts@[ti as int]@ == ts[ti as int]);
                                        assert(emitted[ti as int] == normalized_line_of(
                                            ts[ti as int],
                                        ));
                                        assert(nl@ == normalized_line_of(ts[ti as int]));
                                        assert(events.deep_view() =~~= dv0.push(nl@));
                                        assert(dv0.push(nl@) =~~= es0 + emitted.take(
                                            ti as int + 1,
                                        ));
                                    }
                                    ti += 1;
                                }
                                proof {
                                    assert(emitted.take(emitted.len() as int) =~~= emitted);
                                    assert(events.deep_view() == es0 + emitted);
                                }
                                false
                            },
                            None => {
                                proof {
                                    assert(gemini_line_texts(payload@) is None);
                                }
                                match self.policy {
                                    ParsePolicy::FatalAbort => true,
                                    ParsePolicy::BufferRetry => {
                                        proof {
                                            assert(cls == LineClass::Keep(
                                                data_prefix() + strip_cr(ls[li as int]).skip(6),
                                            ));
                                        }
                                        push_kept(&mut kept, payload);
                                        false
                                    },
                                }
                            },
                        }
                    },
                    _ => {
                        match mistral_extract(payload) {
                            Some(inner) => {
                                match inner {
                                    Some(t) => {
                                        let ghost tv = mistral_line_text(
                                            payload@,
                                        )->Some_0->Some_0;
                                        proof {
                                            assert(t@ == tv);
                                            assert(cls == LineClass::Emit(
                                                seq![normalized_line_of(tv)],
                                            ));
                                        }
                                        let nl = normalized_line(t.as_str());
                                        events.push(nl);
                                        proof {
                                            assert(events.deep_view() =~~= es0 + seq![
                                                normalized_line_of(tv),
                                            ]);
                                        }
                                        false
                                    },
                                    None => {
                                        proof {
                                            assert(cls == LineClass::Emit(Seq::<Seq<char>>::empty()));
                                            assert(es0 + Seq::<Seq<char>>::empty() =~~= es0);
                                        }
                                        false
                                    },
                                }
                            },
                            None => {
                                proof {
                                    assert(mistral_line_text(payload@) is None);
                                }
                                match self.policy {
                                    ParsePolicy::FatalAbort => true,
                                    ParsePolicy::BufferRetry => {
                                        proof {
                                            assert(cls == LineClass::Keep(
                                                data_prefix() + strip_cr(ls[li as int]).skip(6),
                                            ));
                                        }
                                        push_kept(&mut kept, payload);
                                        false
                                    },
                                }
                            },
                        }
                    },
                };
                if fatal {
                    proof {
                        assert(cls is Broken);
                        assert(run_from(kind, policy, ls, li as int, es0, k0) == (RunOutcome::Fail,
                            Seq::<Seq<char>>::empty(), Seq::<u8>::empty()));
                    }
                    self.done = true;
                    self.buf = Vec::new();
                    return FeedOutcome::Fatal;
                }
                proof {
                    if cls is Emit {
                        assert(events.deep_view() == es0 + cls->Emit_0);
                        assert(kept@ == k0);
                    }
                    if cls is Keep {
                        assert(kept@ == k0 + cls->Keep_0);
                        assert(events.deep_view() == es0);
                    }
                    assert(run_from(kind, policy, ls, li as int, es0, k0) == run_from(
                        kind,
                        policy,
                        ls,
                        li as int + 1,
                        events.deep_view(),
                        kept@,
                    ));
                }
            } else {
                proof {
                    assert(cls is Skip);
                    assert(run_from(kind, policy, ls, li as int, es0, k0) == run_from(
                        kind,
                        policy,
                        ls,
                        li as int + 1,
                        es0,
                        k0,
                    ));
                }
            }
            li += 1;
        }
        proof {
            assert(run_from(kind, policy, ls, li as int, events.deep_view(), kept@) == (
                RunOutcome::Proceed,
                events.deep_view(),
                kept@,
            ));
        }
        self.buf = kept;
        FeedOutcome::Events(events)
    }

    /// Decides what the transport does for one upstream read: a chunk runs
    /// through `feed`; a closed connection ends the stream cleanly, never as
    /// an error; a transport-level read failure aborts it. Once the stream
    /// is over the normalizer never changes again and never emits: the
    /// sequence is finite and non-restartable.
    pub fn on_read(&mut self, ev: ReadEvent) -> (a: StreamAction)
        ensures
            final(self).kind == old(self).kind,
            final(self).policy == old(self).policy,
            old(self).done ==> (a matches StreamAction::Finish(es) && es@.len() == 0
                && *final(self) == *old(self)),
            !old(self).done ==> match ev {
                ReadEvent::Closed => (a matches StreamAction::Finish(es) && es@.len() == 0)
                    && final(self).done,
                ReadEvent::ReadError => a is Abort && final(self).done,
                ReadEvent::Chunk(c) => ({
                    let m = run(old(self).kind, old(self).policy, old(self).buf@ + c@);
                    &&& (m.0 is Proceed ==> (a matches StreamAction::Emit(es) && es.deep_view()
                        == m.1 && final(self).buf@ == m.2 && !final(self).done))
                    &&& (m.0 is Finish ==> (a matches StreamAction::Finish(es) && es.deep_view()
                        == m.1 && final(self).done))
                    &&& (m.0 is Fail ==> a is Abort && final(self).done)
                }),
            },
    {
        if self.done {
            return StreamAction::Finish(Vec::new());
        }
        match ev {
            ReadEvent::Closed => {
                self.done = true;
                StreamAction::Finish(Vec::new())
            },
            ReadEvent::ReadError => {
                self.done = true;
                StreamAction::Abort
            },
            ReadEvent::Chunk(c) => {
                match self.feed(c.as_slice()) {
                    FeedOutcome::Events(es) => StreamAction::Emit(es),
                    FeedOutcome::Done(es) => StreamAction::Finish(es),
                    FeedOutcome::Fatal => StreamAction::Abort,
                }
            },
        }
    }
}

/// One upstream read, as the transport loop reports it to the normalizer.
pub enum ReadEvent {
    /// The connection yielded another chunk of bytes.
    Chunk(Vec<u8>),
    /// The connection closed: the unambiguous, non-error end of the stream.
    Closed,
    /// The read itself failed at the transport level.
    ReadError,
}

/// What the transport does after one read.
pub enum StreamAction {
    /// Write these normalized lines (possibly none) and read again.
    Emit(Vec<String>),
    /// Write these final normalized lines, then end the response cleanly.
    Finish(Vec<String>),
    /// Abort the response: no further bytes.
    Abort,
}

/// The event batches that a stretch of all-decodable lines contributes, in
/// line order.
pub open spec fn emits_from(
    kind: ProviderKind,
    policy: ParsePolicy,
    lines: Seq<Seq<u8>>,
    i: int,
) -> Seq<Seq<char>>
    decreases lines.len() - i,
{
    if i < 0 || i >= lines.len() {
        Seq::empty()
    } else {
        match classify(kind, policy, lines[i]) {
            LineClass::Emit(es) => es + emits_from(kind, policy, lines, i + 1),
            _ => emits_from(kind, policy, lines, i + 1),
        }
    }
}

/// A read whose lines each decode to a batch of events (no sentinel, no
/// undecodable line) emits exactly those batches, in source order, keeps
/// nothing in the buffer, and leaves the stream open: N well-formed `data:`
/// lines yield their N batches in the order the provider sent them.
pub proof fn lemma_all_lines_emit(
    kind: ProviderKind,
    policy: ParsePolicy,
    lines: Seq<Seq<u8>>,
    i: int,
    events: Seq<Seq<char>>,
    kept: Seq<u8>,
)
    requires
        0 <= i <= lines.len(),
        forall|j: int| i <= j < lines.len() ==> classify(kind, policy, lines[j]) is Emit,
    ensures
        run_from(kind, policy, lines, i, events, kept) == (
            RunOutcome::Proceed,
            events + emits_from(kind, policy, lines, i),
            kept,
        ),
    decreases lines.len() - i,
{
    if i == lines.len() {
        assert(emits_from(kind, policy, lines, i) =~~= Seq::<Seq<char>>::empty());
        assert(events + Seq::<Seq<char>>::empty() =~~= events);
    } else {
        let es = classify(kind, policy, lines[i])->Emit_0;
        lemma_all_lines_emit(kind, policy, lines, i + 1, events + es, kept);
        assert((events + es) + emits_from(kind, policy, lines, i + 1) =~~= events + (es
            + emits_from(kind, policy, lines, i + 1)));
        assert(emits_from(kind, policy, lines, i) == es + emits_from(kind, policy, lines, i + 1));
    }
}

proof fn lemma_one_event_per_line(
    kind: ProviderKind,
    policy: ParsePolicy,
    lines: Seq<Seq<u8>>,
    i: int,
)
    requires
        0 <= i <= lines.len(),
        forall|j: int| i <= j < lines.len() ==> #[trigger] classify(kind, policy, lines[j]) is Emit
            && classify(kind, policy, lines[j])->Emit_0.len() == 1,
    ensures
        emits_from(kind, policy, lines, i).len() == lines.len() - i,
        forall|j: int| i <= j < lines.len() ==> emits_from(kind, policy, lines, i)[j - i]
            == #[trigger] classify(kind, policy, lines[j])->Emit_0[0],
    decreases lines.len() - i,
{
    if i < lines.len() {
        lemma_one_event_per_line(kind, policy, lines, i + 1);
        let es = classify(kind, policy, lines[i])->Emit_0;
        assert(emits_from(kind, policy, lines, i) == es + emits_from(kind, policy, lines, i + 1));
        assert forall|j: int| i <= j < lines.len() implies emits_from(kind, policy, lines, i)[j
            - i] == #[trigger] classify(kind, policy, lines[j])->Emit_0[0] by {
            if j > i {
                assert(emits_from(kind, policy, lines, i)[j - i] == emits_from(
                    kind,
                    policy,
                    lines,
                    i + 1,
                )[j - i - 1]);
            }
        }
    }
}

/// A read of N lines that each decode to exactly one event yields exactly N
/// normalized events, the one of line j standing at position j: nothing
/// dropped, nothing duplicated, nothing reordered.
pub proof fn lemma_count_events(kind: ProviderKind, policy: ParsePolicy, lines: Seq<Seq<u8>>)
    requires
        forall|j: int| 0 <= j < lines.len() ==> #[trigger] classify(kind, policy, lines[j]) is Emit
            && classify(kind, policy, lines[j])->Emit_0.len() == 1,
    ensures
        run_from(kind, policy, lines, 0, Seq::empty(), Seq::empty()).0 is Proceed,
        run_from(kind, policy, lines, 0, Seq::empty(), Seq::empty()).1.len() == lines.len(),
        forall|j: int| 0 <= j < lines.len() ==> run_from(kind, policy, lines, 0, Seq::empty(),
        Seq::empty()).1[j] == #[trigger] classify(kind, policy, lines[j])->Emit_0[0],
        run_from(kind, policy, lines, 0, Seq::empty(), Seq::empty()).2 == Seq::<u8>::empty(),
{
    lemma_all_lines_emit(kind, policy, lines, 0, Seq::empty(), Seq::empty());
    lemma_one_event_per_line(kind, policy, lines, 0);
    assert(Seq::<Seq<char>>::empty() + emits_from(kind, policy, lines, 0) =~~= emits_from(
        kind,
        policy,
        lines,
        0,
    ));
}

/// Once the sentinel line stands among a read's lines, with every line
/// before it decodable or ignorable, the run ends the stream cleanly: the
/// batches gathered before `data: [DONE]` are handed over, in order, and no
/// event follows it, whatever else the read carried.
pub proof fn lemma_sentinel_ends_run(
    kind: ProviderKind,
    policy: ParsePolicy,
    lines: Seq<Seq<u8>>,
    i: int,
    at: int,
    events: Seq<Seq<char>>,
    kept: Seq<u8>,
)
    requires
        0 <= i <= at < lines.len(),
        classify(kind, policy, lines[at]) is Sentinel,
        forall|j: int| i <= j < at ==> !(classify(kind, policy, lines[j]) is Broken) && !(classify(
            kind,
            policy,
            lines[j],
        ) is Sentinel),
    ensures
        run_from(kind, policy, lines, i, events, kept) == (
            RunOutcome::Finish,
            events + emits_from(kind, policy, lines.take(at), i),
            Seq::<u8>::empty(),
        ),
    decreases at - i,
{
    let pre = lines.take(at);
    if i == at {
        assert(emits_from(kind, policy, pre, i) == Seq::<Seq<char>>::empty());
        assert(events + Seq::<Seq<char>>::empty() =~~= events);
    } else {
        assert(pre[i] == lines[i]);
        match classify(kind, policy, lines[i]) {
            LineClass::Emit(es) => {
                lemma_sentinel_ends_run(kind, policy, lines, i + 1, at, events + es, kept);
                assert(emits_from(kind, policy, pre, i) == es + emits_from(
                    kind,
                    policy,
                    pre,
                    i + 1,
                ));
                assert((events + es) + emits_from(kind, policy, pre, i + 1) =~~= events + (es
                    + emits_from(kind, policy, pre, i + 1)));
            },
            LineClass::Keep(ks) => {
                lemma_sentinel_ends_run(kind, policy, lines, i + 1, at, events, kept + ks);
                assert(emits_from(kind, policy, pre, i) == emits_from(kind, policy, pre, i + 1));
            },
            LineClass::Skip => {
                lemma_sentinel_ends_run(kind, policy, lines, i + 1, at, events, kept);
                assert(emits_from(kind, policy, pre, i) == emits_from(kind, policy, pre, i + 1));
            },
            _ => {
                assert(false);
            },
        }
    }
}

proof fn lemma_lines_from_no_nl(b: Seq<u8>, i: int, cur: Seq<u8>, acc: Seq<Seq<u8>>)
    requires
        0 <= i <= b.len(),
        forall|j: int| i <= j < b.len() ==> b[j] != LINE_FEED,
    ensures
        lines_from(b, i, cur, acc) == if (cur + b.skip(i)).len() == 0 {
            acc
        } else {
            acc.push(cur + b.skip(i))
        },
    decreases b.len() - i,
{
    if i == b.len() {
        assert(b.skip(i) =~= Seq::<u8>::empty());
        assert(cur + b.skip(i) =~= cur);
    } else {
        lemma_lines_from_no_nl(b, i + 1, cur.push(b[i]), acc);
        assert(cur.push(b[i]) + b.skip(i + 1) =~= cur + b.skip(i));
    }
}

proof fn lemma_lines_from_upto_nl(b: Seq<u8>, i: int, cur: Seq<u8>, acc: Seq<Seq<u8>>, k: int)
    requires
        0 <= i <= k < b.len(),
        b[k] == LINE_FEED,
        forall|j: int| i <= j < k ==> b[j] != LINE_FEED,
    ensures
        lines_from(b, i, cur, acc) == lines_from(
            b,
            k + 1,
            Seq::empty(),
            acc.push(cur + b.subrange(i, k)),
        ),
    decreases k - i,
{
    if i == k {
        assert(b.subrange(i, k) =~= Seq::<u8>::empty());
        assert(cur + b.subrange(i, k) =~= cur);
    } else {
        lemma_lines_from_upto_nl(b, i + 1, cur.push(b[i]), acc, k);
        assert(cur.push(b[i]) + b.subrange(i + 1, k) =~= cur + b.subrange(i, k));
    }
}

/// A logical JSON frame split across two reads, on a buffering provider
/// path, yields nothing from the first read — the half frame is kept, not
/// emitted and not corrupted — and yields exactly its one event once the
/// second read completes the line. Stated over the per-line fold; `feed`
/// puts only the malformed-bytes abort in front of it, which a well-formed
/// frame never triggers.
pub proof fn lemma_split_frame(
    kind: ProviderKind,
    first: Seq<u8>,
    rest: Seq<u8>,
    text: Seq<char>,
)
    requires
        !(kind is Gemini),
        has_data_prefix(first),
        forall|j: int| 0 <= j < first.len() ==> first[j] != LINE_FEED,
        first[first.len() - 1] != CARRIAGE_RETURN,
        trim_of(first) != sentinel(),
        mistral_line_text(first.skip(6)) is None,
        rest.len() > 0,
        forall|j: int| 0 <= j < rest.len() ==> rest[j] != LINE_FEED,
        rest[rest.len() - 1] != CARRIAGE_RETURN,
        trim_of(first + rest) != sentinel(),
        mistral_line_text((first + rest).skip(6)) == Some(Some(text)),
    ensures
        run_from(kind, ParsePolicy::BufferRetry, spec_lines(first), 0, Seq::empty(), Seq::empty())
            == (RunOutcome::Proceed, Seq::<Seq<char>>::empty(), first),
        run_from(
            kind,
            ParsePolicy::BufferRetry,
            spec_lines(first + rest + seq![LINE_FEED]),
            0,
            Seq::empty(),
            Seq::empty(),
        ) == (RunOutcome::Proceed, seq![normalized_line_of(text)], Seq::<u8>::empty()),
{
    let policy = ParsePolicy::BufferRetry;
    // First read: the whole buffer is one unterminated line, kept whole.
    lemma_lines_from_no_nl(first, 0, Seq::empty(), Seq::empty());
    assert(Seq::<u8>::empty() + first.skip(0) =~= first);
    let ls1 = spec_lines(first);
    assert(ls1 =~~= seq![first]);
    assert(strip_cr(first) == first);
    assert(classify(kind, policy, first) == LineClass::Keep(data_prefix() + first.skip(6))) by {
        assert(!(trim_of(strip_cr(first)) == sentinel()));
    }
    assert(data_prefix() + first.skip(6) =~= first) by {
        assert(forall|j: int| 0 <= j < 6 ==> data_prefix()[j] == first.subrange(0, 6)[j]);
    }
    assert(run_from(kind, policy, ls1, 1, Seq::empty(), Seq::empty() + first) == (
        RunOutcome::Proceed,
        Seq::<Seq<char>>::empty(),
        Seq::empty() + first,
    ));
    assert(Seq::<u8>::empty() + first =~= first);
    // Second read: the completed line, terminated, emits its one event.
    let full = first + rest;
    let b2 = first + rest + seq![LINE_FEED];
    assert(b2.len() > 0 && b2[b2.len() - 1] == LINE_FEED);
    assert forall|j: int| 0 <= j < b2.len() - 1 implies b2[j] != LINE_FEED by {
        if j < first.len() {
            assert(b2[j] == first[j]);
        } else {
            assert(b2[j] == rest[j - first.len()]);
        }
    }
    lemma_lines_from_upto_nl(b2, 0, Seq::empty(), Seq::empty(), b2.len() - 1);
    assert(Seq::<u8>::empty() + b2.subrange(0, b2.len() - 1) =~= full);
    let ls2 = spec_lines(b2);
    assert(ls2 == lines_from(b2, b2.len() as int, Seq::empty(), Seq::<Seq<u8>>::empty().push(full)));
    assert(ls2 =~~= seq![full]);
    assert(strip_cr(full) == full) by {
        assert(full[full.len() - 1] == rest[rest.len() - 1]);
    }
    assert(has_data_prefix(full)) by {
        assert(full.subrange(0, 6) =~= first.subrange(0, 6));
    }
    assert(classify(kind, policy, full) == LineClass::Emit(seq![normalized_line_of(text)]));
    assert(run_from(kind, policy, ls2, 1, Seq::empty() + seq![normalized_line_of(text)],
        Seq::empty()) == (
        RunOutcome::Proceed,
        Seq::<Seq<char>>::empty() + seq![normalized_line_of(text)],
        Seq::<u8>::empty(),
    ));
    assert(Seq::<Seq<char>>::empty() + seq![normalized_line_of(text)] =~~= seq![
        normalized_line_of(text),
    ]);
}

} // verus!
