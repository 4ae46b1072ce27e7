use vstd::prelude::*;

use crate::text::same_text;

verus! {

/// A term of the training loss between a prediction and its target.
#[derive(Debug, Clone, Copy, PartialEq, Eq, Structural)]
pub enum LossTerm {
    /// Mean squared error.
    Mse,
    /// Mean absolute error.
    L1,
    /// One minus the structural similarity.
    Ssim,
    /// One minus the multi-scale structural similarity.
    MsSsim,
}

/// A loss: the weighted sum of one or two terms, weights given in tenths.
#[derive(Debug, Clone, Copy, PartialEq, Eq, Structural)]
pub struct LossSpec {
    pub first: LossTerm,
    pub first_tenths: u32,
    pub second: LossTerm,
    pub second_tenths: u32,
}

/// A loss made of one term alone.
pub open spec fn single(t: LossTerm) -> LossSpec {
    LossSpec { first: t, first_tenths: 10, second: t, second_tenths: 0 }
}

/// A loss mixing two terms.
pub open spec fn mixed(a: LossTerm, wa: u32, b: LossTerm, wb: u32) -> LossSpec {
    LossSpec { first: a, first_tenths: wa, second: b, second_tenths: wb }
}

/// The loss selected by the name `s`.
pub open spec fn loss_named(s: Seq<char>) -> Option<LossSpec> {
    if s == "L2"@ {
        Some(single(LossTerm::Mse))
    } else if s == "L1"@ {
        Some(single(LossTerm::L1))
    } else if s == "SSIM"@ {
        Some(single(LossTerm::Ssim))
    } else if s == "Fusion1"@ {
        Some(mixed(LossTerm::Mse, 3, LossTerm::Ssim, 7))
    } else if s == "Fusion2"@ {
        Some(mixed(LossTerm::L1, 3, LossTerm::Ssim, 7))
    } else if s == "Fusion3"@ {
        Some(mixed(LossTerm::Mse, 5, LossTerm::Ssim, 5))
    } else if s == "Fusion4"@ {
        Some(mixed(LossTerm::L1, 5, LossTerm::Ssim, 5))
    } else if s == "Fusion5"@ {
        Some(mixed(LossTerm::Mse, 7, LossTerm::Ssim, 3))
    } else if s == "Fusion6"@ {
        Some(mixed(LossTerm::L1, 7, LossTerm::Ssim, 3))
    } else if s == "Fusion7"@ {
        Some(mixed(LossTerm::Mse, 7, LossTerm::L1, 3))
    } else if s == "Fusion8"@ {
        Some(mixed(LossTerm::Mse, 5, LossTerm::L1, 5))
    } else if s == "Fusion9"@ {
        Some(mixed(LossTerm::L1, 9, LossTerm::Ssim, 1))
    } else if s == "Fusion10"@ {
        Some(mixed(LossTerm::L1, 7, LossTerm::MsSsim, 3))
    } else if s == "Fusion11"@ {
        Some(mixed(LossTerm::L1, 9, LossTerm::MsSsim, 1))
    } else if s == "Fusion12"@ {
        Some(mixed(LossTerm::L1, 8, LossTerm::MsSsim, 2))
    } else {
        None
    }
}

impl LossSpec {
    /// The loss named `loss_type`, or `None` when the name is unknown.
    pub fn parse(loss_type: &str) -> (r: Option<LossSpec>)
        ensures
            r == loss_named(loss_type@),
    {
        if same_text(loss_type, "L2") {
            Some(LossSpec { first: LossTerm::Mse, first_tenths: 10, second: LossTerm::Mse, second_tenths: 0 })
        } else if same_text(loss_type, "L1") {
            Some(LossSpec { first: LossTerm::L1, first_tenths: 10, second: LossTerm::L1, second_tenths: 0 })
        } else if same_text(loss_type, "SSIM") {
            Some(LossSpec { first: LossTerm::Ssim, first_tenths: 10, second: LossTerm::Ssim, second_tenths: 0 })
        } else if same_text(loss_type, "Fusion1") {
            Some(LossSpec { first: LossTerm::Mse, first_tenths: 3, second: LossTerm::Ssim, second_tenths: 7 })
        } else if same_text(loss_type, "Fusion2") {
            Some(LossSpec { first: LossTerm::L1, first_tenths: 3, second: LossTerm::Ssim, second_tenths: 7 })
        } else if same_text(loss_type, "Fusion3") {
            Some(LossSpec { first: LossTerm::Mse, first_tenths: 5, second: LossTerm::Ssim, second_tenths: 5 })
        } else if same_text(loss_type, "Fusion4") {
            Some(LossSpec { first: LossTerm::L1, first_tenths: 5, second: LossTerm::Ssim, second_tenths: 5 })
        } else if same_text(loss_type, "Fusion5") {
            Some(LossSpec { first: LossTerm::Mse, first_tenths: 7, second: LossTerm::Ssim, second_tenths: 3 })
        } else if same_text(loss_type, "Fusion6") {
            Some(LossSpec { first: LossTerm::L1, first_tenths: 7, second: LossTerm::Ssim, second_tenths: 3 })
        } else if same_text(loss_type, "Fusion7") {
            Some(LossSpec { first: LossTerm::Mse, first_tenths: 7, second: LossTerm::L1, second_tenths: 3 })
        } else if same_text(loss_type, "Fusion8") {
            Some(LossSpec { first: LossTerm::Mse, first_tenths: 5, second: LossTerm::L1, second_tenths: 5 })
        } else if same_text(loss_type, "Fusion9") {
            Some(LossSpec { first: LossTerm::L1, first_tenths: 9, second: LossTerm::Ssim, second_tenths: 1 })
        } else if same_text(loss_type, "Fusion10") {
            Some(LossSpec { first: LossTerm::L1, first_tenths: 7, second: LossTerm::MsSsim, second_tenths: 3 })
        } else if same_text(loss_type, "Fusion11") {
            Some(LossSpec { first: LossTerm::L1, first_tenths: 9, second: LossTerm::MsSsim, second_tenths: 1 })
        } else if same_text(loss_type, "Fusion12") {
            Some(LossSpec { first: LossTerm::L1, first_tenths: 8, second: LossTerm::MsSsim, second_tenths: 2 })
        } else {
            None
        }
    }
}

/// Every loss is a weighted average of its terms: the weights are positive where a term is
/// mixed in, and they add up to one.
pub proof fn lemma_loss_weights_average(s: Seq<char>)
    ensures
        loss_named(s) matches Some(l) ==> {
            &&& l.first_tenths + l.second_tenths == 10
            &&& l.first_tenths > 0
            &&& (l.second_tenths > 0 ==> l.first != l.second)
        },
{
}

/// The tenths of the loss that go to the term `t`.
pub open spec fn term_weight(l: LossSpec, t: LossTerm) -> int {
    (if l.first == t { l.first_tenths as int } else { 0int }) + (if l.second == t {
        l.second_tenths as int
    } else {
        0int
    })
}

/// The tenths that the loss gives to mean squared error, mean absolute error, one minus SSIM and
/// one minus MS-SSIM, in that order.
pub open spec fn term_weights(l: LossSpec) -> (int, int, int, int) {
    (
        term_weight(l, LossTerm::Mse),
        term_weight(l, LossTerm::L1),
        term_weight(l, LossTerm::Ssim),
        term_weight(l, LossTerm::MsSsim),
    )
}

/// The table of losses: the names `L2`, `L1`, `SSIM` and `Fusion1` to `Fusion12` are the only
/// ones accepted, and each weighs mean squared error, mean absolute error, `1 - SSIM` and
/// `1 - MS-SSIM` as listed (in tenths). Only `Fusion10`, `Fusion11` and `Fusion12` use the
/// multi-scale similarity.
pub proof fn lemma_loss_table(s: Seq<char>)
    ensures
        loss_named(s) is Some ==> (s == "L2"@ || s == "L1"@ || s == "SSIM"@ || s == "Fusion1"@ || s == "Fusion2"@ || s == "Fusion3"@ || s == "Fusion4"@ || s == "Fusion5"@ || s == "Fusion6"@ || s == "Fusion7"@ || s == "Fusion8"@ || s == "Fusion9"@ || s == "Fusion10"@ || s == "Fusion11"@ || s == "Fusion12"@),
        s == "L2"@ ==> (loss_named(s) matches Some(l) && term_weights(l) == (10int, 0int, 0int, 0int)),
        s == "L1"@ ==> (loss_named(s) matches Some(l) && term_weights(l) == (0int, 10int, 0int, 0int)),
        s == "SSIM"@ ==> (loss_named(s) matches Some(l) && term_weights(l) == (0int, 0int, 10int, 0int)),
        s == "Fusion1"@ ==> (loss_named(s) matches Some(l) && term_weights(l) == (3int, 0int, 7int, 0int)),
        s == "Fusion2"@ ==> (loss_named(s) matches Some(l) && term_weights(l) == (0int, 3int, 7int, 0int)),
        s == "Fusion3"@ ==> (loss_named(s) matches Some(l) && term_weights(l) == (5int, 0int, 5int, 0int)),
        s == "Fusion4"@ ==> (loss_named(s) matches Some(l) && term_weights(l) == (0int, 5int, 5int, 0int)),
        s == "Fusion5"@ ==> (loss_named(s) matches Some(l) && term_weights(l) == (7int, 0int, 3int, 0int)),
        s == "Fusion6"@ ==> (loss_named(s) matches Some(l) && term_weights(l) == (0int, 7int, 3int, 0int)),
        s == "Fusion7"@ ==> (loss_named(s) matches Some(l) && term_weights(l) == (7int, 3int, 0int, 0int)),
        s == "Fusion8"@ ==> (loss_named(s) matches Some(l) && term_weights(l) == (5int, 5int, 0int, 0int)),
        s == "Fusion9"@ ==> (loss_named(s) matches Some(l) && term_weights(l) == (0int, 9int, 1int, 0int)),
        s == "Fusion10"@ ==> (loss_named(s) matches Some(l) && term_weights(l) == (0int, 7int, 0int, 3int)),
        s == "Fusion11"@ ==> (loss_named(s) matches Some(l) && term_weights(l) == (0int, 9int, 0int, 1int)),
        s == "Fusion12"@ ==> (loss_named(s) matches Some(l) && term_weights(l) == (0int, 8int, 0int, 2int)),
        loss_named(s) matches Some(l) ==> (term_weight(l, LossTerm::MsSsim) > 0 <==> (s == "Fusion10"@
            || s == "Fusion11"@ || s == "Fusion12"@)),
{
    reveal_strlit("L2");
    reveal_strlit("L1");
    reveal_strlit("SSIM");
    reveal_strlit("Fusion1");
    reveal_strlit("Fusion2");
    reveal_strlit("Fusion3");
    reveal_strlit("Fusion4");
    reveal_strlit("Fusion5");
    reveal_strlit("Fusion6");
    reveal_strlit("Fusion7");
    reveal_strlit("Fusion8");
    reveal_strlit("Fusion9");
    reveal_strlit("Fusion10");
    reveal_strlit("Fusion11");
    reveal_strlit("Fusion12");
    assert("L2"@.len() == 2 && "L2"@[1] == '2');
    assert("L1"@.len() == 2 && "L1"@[1] == '1');
    assert("SSIM"@.len() == 4 && "SSIM"@[3] == 'M');
    assert("Fusion1"@.len() == 7 && "Fusion1"@[6] == '1');
    assert("Fusion2"@.len() == 7 && "Fusion2"@[6] == '2');
    assert("Fusion3"@.len() == 7 && "Fusion3"@[6] == '3');
    assert("Fusion4"@.len() == 7 && "Fusion4"@[6] == '4');
    assert("Fusion5"@.len() == 7 && "Fusion5"@[6] == '5');
    assert("Fusion6"@.len() == 7 && "Fusion6"@[6] == '6');
    assert("Fusion7"@.len() == 7 && "Fusion7"@[6] == '7');
    assert("Fusion8"@.len() == 7 && "Fusion8"@[6] == '8');
    assert("Fusion9"@.len() == 7 && "Fusion9"@[6] == '9');
    assert("Fusion10"@.len() == 8 && "Fusion10"@[7] == '0');
    assert("Fusion11"@.len() == 8 && "Fusion11"@[7] == '1');
    assert("Fusion12"@.len() == 8 && "Fusion12"@[7] == '2');
}

} // verus!
