use vstd::prelude::*;
use vstd::slice::slice_subrange;
use vstd::string::StringSliceAdditionalSpecFns;
use vstd::utf8::encode_utf8;
use crate::handler::Handler;
use crate::message::{has_structure, is_crlf_at, is_line_of, no_crlf_in, parse_http_parts, parsed_from, ParsedMessage};
use crate::redact::{lossy_string, lossy_text};
use crate::resolve::{first_named, find_header, lemma_parsed_bounds, resolve, resolved};

verus! {

/// Why a handler yielded no value.
#[derive(Clone, Copy, Debug, PartialEq, Eq, Structural)]
pub enum ExtractError {
    /// The transcript has no HTTP structure.
    Unstructured,
    /// The handler does not apply to the transcript, or is ambiguous.
    Unresolved,
}

/// Extracts the value that `handler` reveals from one HTTP transcript: the
/// bytes of the range it resolves to, as text.
pub fn extract_value_from_transcript(transcript: &str, handler: &Handler) -> (r: Result<String, ExtractError>)
    ensures
        !has_structure(transcript.spec_bytes()) <==> r == Err::<String, ExtractError>(ExtractError::Unstructured),
        has_structure(transcript.spec_bytes()) ==> exists|m: ParsedMessage| #![trigger parsed_from(transcript.spec_bytes(), m)]
            parsed_from(transcript.spec_bytes(), m) && match resolved(*handler, transcript.spec_bytes(), m) {
                Some(t) => r matches Ok(s) && s@ == lossy_text(transcript.spec_bytes().subrange(t.0, t.1)),
                None => r == Err::<String, ExtractError>(ExtractError::Unresolved),
            },
{
    let b = transcript.as_bytes();
    let m = match parse_http_parts(b) {
        Some(m) => m,
        None => return Err(ExtractError::Unstructured),
    };
    match resolve(handler, b, &m) {
        Some(t) => Ok(lossy_string(slice_subrange(b, t.start, t.end))),
        None => Err(ExtractError::Unresolved),
    }
}

/// The span of the whole first header line whose name is `key`, ignoring
/// ASCII case: one complete line, terminators excluded.
pub fn find_header_range(b: &[u8], key: &str, m: &ParsedMessage) -> (r: Option<(usize, usize)>)
    requires
        parsed_from(b@, *m),
    ensures
        match first_named(b@, m.headers@, encode_utf8(key@), 0) {
            Some(i) => r == Some((m.headers@[i].line.offset, (m.headers@[i].line.offset + m.headers@[i].line.length) as usize)),
            None => r is None,
        },
        r matches Some(t) ==> t.0 <= t.1 <= b@.len() && is_crlf_at(b@, t.0 - 2) && is_crlf_at(b@, t.1 as int)
            && no_crlf_in(b@, t.0 as int, t.1 as int),
{
    proof {
        lemma_parsed_bounds(b@, *m);
    }
    let n = b.len();
    match find_header(b, &m.headers, key.as_bytes()) {
        Some(i) => {
            let h = m.headers[i];
            assert(h.line.within(n as int));
            assert(is_line_of(b@, h));
            Some((h.line.offset, h.line.offset + h.line.length))
        },
        None => None,
    }
}

} // verus!
