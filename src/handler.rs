use vstd::prelude::*;

verus! {

/// Which transcript a handler applies to.
#[derive(Clone, Copy, Debug, PartialEq, Eq, Structural)]
pub enum HandlerType {
    Sent,
    Recv,
}

/// Which structural region of an HTTP message a handler reveals.
#[derive(Clone, Copy, Debug, PartialEq, Eq, Structural)]
pub enum HandlerPart {
    StartLine,
    Protocol,
    Method,
    RequestTarget,
    StatusCode,
    Headers,
    Body,
    All,
}

/// What the cryptographic layer does with the selected bytes.
#[derive(Clone, Copy, Debug, PartialEq, Eq, Structural)]
pub enum HandlerAction {
    Reveal,
    Pedersen,
}

/// Part-dependent refinements of a handler.
#[derive(Clone, Debug)]
pub struct HandlerParams {
    /// Header name to select (Headers).
    pub key: Option<String>,
    /// Reveal only the value of the selected header or JSON member.
    pub hide_key: Option<bool>,
    /// Reveal only the name of the selected header or JSON member.
    pub hide_value: Option<bool>,
    /// Body format; `"json"` enables `path`.
    pub content_type: Option<String>,
    /// Dotted/bracketed JSON path such as `items[0].name` (Body).
    pub path: Option<String>,
    pub regex: Option<String>,
    pub flags: Option<String>,
}

/// A declarative unit of disclosure intent.
#[derive(Clone, Debug)]
pub struct Handler {
    pub handler_type: HandlerType,
    pub part: HandlerPart,
    pub action: HandlerAction,
    pub params: Option<HandlerParams>,
}

/// Direction and part of a handler, as carried with each revealed range.
#[derive(Clone, Copy, Debug, PartialEq, Eq, Structural)]
pub struct HandlerTag {
    pub handler_type: HandlerType,
    pub part: HandlerPart,
}

/// A half-open byte range of one transcript and the handler it came from.
#[derive(Clone, Copy, Debug, PartialEq, Eq, Structural)]
pub struct RangeWithHandler {
    pub start: usize,
    pub end: usize,
    pub handler: HandlerTag,
}

/// The reveal intent for one session: ranges of the sent and of the
/// received transcript, in handler order.
#[derive(Clone, Debug)]
pub struct RevealConfig {
    pub sent: Vec<RangeWithHandler>,
    pub recv: Vec<RangeWithHandler>,
}

/// A handler together with the value its range revealed.
#[derive(Clone, Debug)]
pub struct HandlerResult {
    pub handler: HandlerTag,
    pub value: String,
}

impl Handler {
    pub open spec fn hides_key(self) -> bool {
        self.params matches Some(p) && p.hide_key == Some(true)
    }

    pub open spec fn hides_value(self) -> bool {
        self.params matches Some(p) && p.hide_value == Some(true)
    }

    /// Hiding both the key and the value leaves nothing to reveal.
    pub open spec fn is_ambiguous(self) -> bool {
        self.hides_key() && self.hides_value()
    }

    pub open spec fn tag(self) -> HandlerTag {
        HandlerTag { handler_type: self.handler_type, part: self.part }
    }

    /// The direction and part of this handler.
    pub fn to_tag(&self) -> (r: HandlerTag)
        ensures
            r == self.tag(),
    {
        HandlerTag { handler_type: self.handler_type, part: self.part }
    }

    /// Whether both `hide_key` and `hide_value` are set.
    pub fn ambiguous(&self) -> (r: bool)
        ensures
            r == self.is_ambiguous(),
    {
        match &self.params {
            Some(p) => {
                let hk = match p.hide_key {
                    Some(v) => v,
                    None => false,
                };
                let hv = match p.hide_value {
                    Some(v) => v,
                    None => false,
                };
                hk && hv
            },
            None => false,
        }
    }
}

} // verus!
