use vstd::prelude::*;

verus! {

/// The wiring of one element: the indices of its four sources.
pub type Edge = (usize, usize, usize, usize);

/// The classification of an element, which selects the phase of the tick in
/// which it is recomputed and the polarity of its output.
#[non_exhaustive]
#[derive(PartialEq, Eq, Clone, Copy, Debug, Structural)]
pub enum EdgeKind {
    /// OR-type: the element is true when at least one source is true.
    Positive,
    /// NOR-type: the element is true when no source is true.
    Negative,
}

impl EdgeKind {
    /// The character that stands for this kind in a trace event.
    pub open spec fn symbol(self) -> char {
        if self == EdgeKind::Negative {
            '-'
        } else {
            '+'
        }
    }

    /// The kind that a byte of a host's kind buffer stands for: 1 is
    /// [`EdgeKind::Positive`], 2 is [`EdgeKind::Negative`], and no other
    /// byte is a kind.
    pub open spec fn decode(raw: u8) -> Option<EdgeKind> {
        if raw == 1 {
            Some(EdgeKind::Positive)
        } else if raw == 2 {
            Some(EdgeKind::Negative)
        } else {
            None
        }
    }

    /// Decodes one byte of a host's kind buffer.
    pub fn from_raw(raw: u8) -> (kind: Option<EdgeKind>)
        ensures
            kind == EdgeKind::decode(raw),
    {
        if raw == 1 {
            Some(EdgeKind::Positive)
        } else if raw == 2 {
            Some(EdgeKind::Negative)
        } else {
            None
        }
    }
}

/// The kind that the entry at `index` of a decoded kind buffer holds for the
/// byte `raw`. The entries at 0 and 1 are never read by a pass, so a byte
/// there that is no kind is taken as [`EdgeKind::Positive`].
pub open spec fn decoded_entry(index: int, raw: u8) -> Option<EdgeKind> {
    if index < 2 && EdgeKind::decode(raw) is None {
        Some(EdgeKind::Positive)
    } else {
        EdgeKind::decode(raw)
    }
}

/// Decodes a host's kind buffer. The result has one kind for each byte; it
/// is made exactly when every byte from index 2 onward is a kind.
pub fn decode_kinds(raw: &[u8]) -> (kinds: Option<Vec<EdgeKind>>)
    ensures
        kinds is Some <==> forall|i: int|
            0 <= i < raw@.len() ==> (#[trigger] decoded_entry(i, raw@[i])) is Some,
        kinds matches Some(decoded) ==> {
            &&& decoded@.len() == raw@.len()
            &&& forall|i: int|
                0 <= i < raw@.len() ==> #[trigger] decoded_entry(i, raw@[i]) == Some(decoded@[i])
        },
{
    let mut decoded: Vec<EdgeKind> = Vec::new();
    for index in 0..raw.len()
        invariant
            decoded@.len() == index,
            forall|i: int|
                0 <= i < index ==> #[trigger] decoded_entry(i, raw@[i]) == Some(decoded@[i]),
    {
        match EdgeKind::from_raw(raw[index]) {
            Some(kind) => decoded.push(kind),
            None => {
                if index < 2 {
                    decoded.push(EdgeKind::Positive);
                } else {
                    assert(decoded_entry(index as int, raw@[index as int]) is None);
                    return None;
                }
            },
        }
    }
    Some(decoded)
}

/// One mutation of an element, as reported to a trace sink.
#[derive(Clone, Copy, Debug, PartialEq, Eq)]
pub struct TraceEvent {
    /// `'+'` for an OR-type element, `'-'` for a NOR-type element.
    pub kind: char,
    /// The index of the element that changed.
    pub target: usize,
    /// The four sources of the element.
    pub sources: Edge,
    /// The value that was stored.
    pub value: bool,
}

/// The way in which a set of buffers fails to describe a network.
#[derive(Clone, Copy, Debug, PartialEq, Eq, Structural)]
pub enum ContractViolation {
    /// A buffer's length differs from the declared element count.
    LengthMismatch,
    /// The declared element count is below two.
    TooFewElements,
    /// The declared OR-type count exceeds the element count.
    PositiveCountTooLarge,
    /// An element from index two onward names a source that does not exist.
    WiringOutOfRange,
}

} // verus!
