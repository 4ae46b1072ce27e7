use vstd::prelude::*;

use crate::text::same_text;

verus! {

/// How the learning rate decays after the warm-up.
#[derive(Debug, Clone, Copy, PartialEq, Eq, Structural)]
pub enum LrSchedule {
    /// Half a cosine period from the base rate down to zero.
    Cosine,
    /// A tenth of the rate for every step boundary passed.
    Step,
    /// The base rate throughout.
    Constant,
}

/// The schedule selected by the name `s`; `"const"` and `"plateau"` both keep the rate constant.
pub open spec fn lr_schedule_named(s: Seq<char>) -> Option<LrSchedule> {
    if s == "cosine"@ {
        Some(LrSchedule::Cosine)
    } else if s == "step"@ {
        Some(LrSchedule::Step)
    } else if s == "const"@ || s == "plateau"@ {
        Some(LrSchedule::Constant)
    } else {
        None
    }
}

impl LrSchedule {
    /// The schedule named `lr_type`, or `None` when the name is unknown.
    pub fn parse(lr_type: &str) -> (r: Option<LrSchedule>)
        ensures
            r == lr_schedule_named(lr_type@),
    {
        if same_text(lr_type, "cosine") {
            Some(LrSchedule::Cosine)
        } else if same_text(lr_type, "step") {
            Some(LrSchedule::Step)
        } else if same_text(lr_type, "const") || same_text(lr_type, "plateau") {
            Some(LrSchedule::Constant)
        } else {
            None
        }
    }
}

} // verus!
