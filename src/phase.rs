use vstd::prelude::*;

use crate::waveform::Error;

verus! {

/// One drive state applied to a pixel during one refresh step.
#[derive(Debug, Clone, Copy, PartialEq, Eq, Structural)]
pub enum Phase {
    Noop,
    Black,
    White,
}

/// The `k`-th two-bit group of `b`, most significant first.
pub open spec fn group(b: u8, k: int) -> u8 {
    if k == 0 {
        b >> 6u8
    } else if k == 1 {
        (b >> 4u8) & 3u8
    } else if k == 2 {
        (b >> 2u8) & 3u8
    } else {
        b & 3u8
    }
}

/// The phase that a two-bit code stands for; `0b11` stands for none.
pub open spec fn phase_of_code(c: u8) -> Option<Phase> {
    if c == 0 {
        Some(Phase::Noop)
    } else if c == 1 {
        Some(Phase::Black)
    } else if c == 2 {
        Some(Phase::White)
    } else {
        None
    }
}

/// Whether none of the four two-bit groups of `b` is `0b11`.
pub open spec fn is_legal_cell(b: u8) -> bool {
    &&& group(b, 0) != 3
    &&& group(b, 1) != 3
    &&& group(b, 2) != 3
    &&& group(b, 3) != 3
}

/// The `k`-th phase packed in the legal cell byte `b`.
pub open spec fn cell_phase(b: u8, k: int) -> Phase {
    phase_of_code(group(b, k))->Some_0
}

/// Four phases packed in one byte, most significant pair first.
#[derive(Debug, Clone, Copy, PartialEq, Eq, Structural)]
pub struct PhaseCell(u8);

impl PhaseCell {
    /// The byte that packs the four phases.
    pub closed spec fn byte(self) -> u8 {
        self.0
    }

    /// Builds the cell packed in `phases`, which must hold no `0b11` group.
    pub fn new(phases: u8) -> (r: Result<Self, Error>)
        ensures
            is_legal_cell(phases) ==> (r matches Ok(c) && c.byte() == phases),
            !is_legal_cell(phases) ==> r == Err::<PhaseCell, Error>(Error::InvalidPhase(phases)),
    {
        if phases >> 6u8 == 3 || (phases >> 4u8) & 3u8 == 3 || (phases >> 2u8) & 3u8 == 3 || phases
            & 3u8 == 3 {
            Err(Error::InvalidPhase(phases))
        } else {
            Ok(PhaseCell(phases))
        }
    }

    /// The phase at `index`, counted from the most significant pair; `None` past the fourth.
    pub fn index(&self, index: u8) -> (r: Option<Phase>)
        ensures
            r == (if index < 4 {
                phase_of_code(group(self.byte(), index as int))
            } else {
                None
            }),
    {
        if index > 3 {
            return None;
        }
        let code = if index == 0 {
            self.0 >> 6u8
        } else if index == 1 {
            (self.0 >> 4u8) & 3u8
        } else if index == 2 {
            (self.0 >> 2u8) & 3u8
        } else {
            self.0 & 3u8
        };
        if code == 0 {
            Some(Phase::Noop)
        } else if code == 1 {
            Some(Phase::Black)
        } else if code == 2 {
            Some(Phase::White)
        } else {
            None
        }
    }
}

/// A legal cell byte holds a phase in each of its four places.
pub proof fn lemma_legal_cell_phases(b: u8)
    requires
        is_legal_cell(b),
    ensures
        forall|k: int| 0 <= k < 4 ==> (#[trigger] phase_of_code(group(b, k))) is Some,
{
    assert(b >> 6u8 <= 3) by (bit_vector);
    assert((b >> 4u8) & 3u8 <= 3) by (bit_vector);
    assert((b >> 2u8) & 3u8 <= 3) by (bit_vector);
    assert(b & 3u8 <= 3) by (bit_vector);
}

} // verus!
