//! A question of a DNS message: a domain name as its expanded label
//! sequence, a question type and a question class. Equality is over the
//! expanded labels, never over a compressed wire position.

use vstd::prelude::*;
use crate::enums::{Qclass, Qtype};

verus! {

/// One question: name labels, type and class.
#[derive(Debug, PartialEq, Eq)]
pub struct Question {
    pub labels: Vec<Vec<u8>>,
    pub qtype: Qtype,
    pub qclass: Qclass,
}

/// The mathematical image of a [`Question`].
#[verifier::ext_equal]
pub struct QuestionV {
    pub labels: Seq<Seq<u8>>,
    pub qtype: Qtype,
    pub qclass: Qclass,
}

impl View for Question {
    type V = QuestionV;

    open spec fn view(&self) -> QuestionV {
        QuestionV { labels: self.labels.deep_view(), qtype: self.qtype, qclass: self.qclass }
    }
}

impl DeepView for Question {
    type V = QuestionV;

    open spec fn deep_view(&self) -> QuestionV {
        self.view()
    }
}

impl Question {
    pub fn new(labels: Vec<Vec<u8>>, qtype: Qtype, qclass: Qclass) -> (q: Question)
        ensures
            q.labels == labels,
            q.qtype == qtype,
            q.qclass == qclass,
    {
        Question { labels, qtype, qclass }
    }
}

} // verus!
