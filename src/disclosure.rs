use vstd::prelude::*;
use crate::handler::{Handler, HandlerPart, HandlerTag, HandlerType, RangeWithHandler, RevealConfig};
use crate::message::{has_structure, parse_http_parts, parsed_from, ParsedMessage};
use crate::resolve::{resolve, resolved};

verus! {

/// Why no reveal configuration could be computed.
#[derive(Clone, Copy, Debug, PartialEq, Eq, Structural)]
pub enum ConfigError {
    /// The sent transcript has no HTTP structure.
    RequestUnparsable,
    /// The received transcript has no HTTP structure.
    ResponseUnparsable,
}

/// The single range that reveals a whole transcript of `n` bytes.
pub open spec fn full_reveal(dir: HandlerType, n: int) -> RangeWithHandler {
    RangeWithHandler {
        start: 0,
        end: n as usize,
        handler: HandlerTag { handler_type: dir, part: HandlerPart::All },
    }
}

/// The ranges that handlers `hs` contribute to direction `dir` of
/// transcript `b` (decomposed as `m`): one per handler of that direction
/// that resolves, in handler order.
pub open spec fn ranges_for(hs: Seq<Handler>, dir: HandlerType, b: Seq<u8>, m: ParsedMessage) -> Seq<RangeWithHandler>
    decreases hs.len(),
{
    if hs.len() == 0 {
        Seq::empty()
    } else {
        let prev = ranges_for(hs.drop_last(), dir, b, m);
        let h = hs.last();
        if h.handler_type == dir {
            match resolved(h, b, m) {
                Some(t) => prev.push(RangeWithHandler { start: t.0 as usize, end: t.1 as usize, handler: h.tag() }),
                None => prev,
            }
        } else {
            prev
        }
    }
}

/// Every range lies inside a transcript of `n` bytes.
pub open spec fn all_within(rs: Seq<RangeWithHandler>, n: int) -> bool {
    forall|i: int| 0 <= i < rs.len() ==> #[trigger] rs[i].start <= rs[i].end && rs[i].end <= n
}

/// Resolves the handlers of direction `dir` against one transcript.
fn collect_ranges(hs: &Vec<Handler>, dir: HandlerType, b: &[u8], m: &ParsedMessage) -> (r: Vec<RangeWithHandler>)
    requires
        parsed_from(b@, *m),
    ensures
        r@ == ranges_for(hs@, dir, b@, *m),
        all_within(r@, b@.len() as int),
{
    let mut out: Vec<RangeWithHandler> = Vec::new();
    let mut i: usize = 0;
    while i < hs.len()
        invariant
            i <= hs@.len(),
            parsed_from(b@, *m),
            out@ == ranges_for(hs@.subrange(0, i as int), dir, b@, *m),
            all_within(out@, b@.len() as int),
        decreases hs.len() - i,
    {
        let h = &hs[i];
        assert(hs@.subrange(0, i + 1).drop_last() =~= hs@.subrange(0, i as int));
        assert(hs@.subrange(0, i + 1).last() == hs@[i as int]);
        if h.handler_type == dir {
            match resolve(h, b, m) {
                Some(t) => {
                    out.push(RangeWithHandler { start: t.start, end: t.end, handler: h.to_tag() });
                },
                None => {},
            }
        }
        i = i + 1;
    }
    assert(hs@.subrange(0, hs@.len() as int) =~= hs@);
    out
}

/// Computes the reveal configuration for a session. Without handlers both
/// transcripts are revealed whole; with handlers each one that resolves
/// contributes exactly one range, and a direction for which none resolves
/// stays fully redacted.
pub fn build_reveal_config(sent: &[u8], recv: &[u8], handlers: &Vec<Handler>) -> (r: Result<RevealConfig, ConfigError>)
    ensures
        handlers@.len() == 0 ==> (r matches Ok(c) && c.sent@ == seq![full_reveal(HandlerType::Sent, sent@.len() as int)]
            && c.recv@ == seq![full_reveal(HandlerType::Recv, recv@.len() as int)]),
        handlers@.len() > 0 ==> match r {
            Err(ConfigError::RequestUnparsable) => !has_structure(sent@),
            Err(ConfigError::ResponseUnparsable) => has_structure(sent@) && !has_structure(recv@),
            Ok(c) => exists|ms: ParsedMessage, mr: ParsedMessage|
                parsed_from(sent@, ms) && parsed_from(recv@, mr)
                && c.sent@ == #[trigger] ranges_for(handlers@, HandlerType::Sent, sent@, ms)
                && c.recv@ == #[trigger] ranges_for(handlers@, HandlerType::Recv, recv@, mr),
        },
        r matches Ok(c) ==> all_within(c.sent@, sent@.len() as int) && all_within(c.recv@, recv@.len() as int),
{
    if handlers.len() == 0 {
        let s = RangeWithHandler {
            start: 0,
            end: sent.len(),
            handler: HandlerTag { handler_type: HandlerType::Sent, part: HandlerPart::All },
        };
        let v = RangeWithHandler {
            start: 0,
            end: recv.len(),
            handler: HandlerTag { handler_type: HandlerType::Recv, part: HandlerPart::All },
        };
        let c = RevealConfig { sent: vec![s], recv: vec![v] };
        assert(c.sent@ =~= seq![full_reveal(HandlerType::Sent, sent@.len() as int)]);
        assert(c.recv@ =~= seq![full_reveal(HandlerType::Recv, recv@.len() as int)]);
        return Ok(c);
    }
    let ms = match parse_http_parts(sent) {
        Some(m) => m,
        None => return Err(ConfigError::RequestUnparsable),
    };
    let mr = match parse_http_parts(recv) {
        Some(m) => m,
        None => return Err(ConfigError::ResponseUnparsable),
    };
    let s = collect_ranges(handlers, HandlerType::Sent, sent, &ms);
    let v = collect_ranges(handlers, HandlerType::Recv, recv, &mr);
    Ok(RevealConfig { sent: s, recv: v })
}

} // verus!

verus! {

/// Handlers of the received direction alone never put a range in the sent
/// direction: it is not backfilled with a full reveal.
pub proof fn lemma_recv_handlers_leave_sent_empty(hs: Seq<Handler>, b: Seq<u8>, m: ParsedMessage)
    requires
        forall|i: int| 0 <= i < hs.len() ==> (#[trigger] hs[i]).handler_type == HandlerType::Recv,
    ensures
        ranges_for(hs, HandlerType::Sent, b, m).len() == 0,
    decreases hs.len(),
{
    if hs.len() > 0 {
        let prev = hs.drop_last();
        assert forall|i: int| 0 <= i < prev.len() implies (#[trigger] prev[i]).handler_type == HandlerType::Recv by {
            assert(prev[i] == hs[i]);
        }
        lemma_recv_handlers_leave_sent_empty(prev, b, m);
        assert(hs.last() == hs[hs.len() - 1]);
    }
}

/// Every range that handlers contribute to a direction carries that
/// direction.
pub proof fn lemma_ranges_keep_direction(hs: Seq<Handler>, dir: HandlerType, b: Seq<u8>, m: ParsedMessage)
    requires
        parsed_from(b, m),
    ensures
        forall|i: int| 0 <= i < ranges_for(hs, dir, b, m).len() ==>
            (#[trigger] ranges_for(hs, dir, b, m)[i]).handler.handler_type == dir,
    decreases hs.len(),
{
    if hs.len() > 0 {
        lemma_ranges_keep_direction(hs.drop_last(), dir, b, m);
    }
}

} // verus!
