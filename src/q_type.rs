use vstd::prelude::*;

use crate::text::str_eq;

verus! {

/// One of a queue's three collections.
#[derive(Debug, Clone, Copy, PartialEq, Eq, Structural)]
pub enum QType {
    /// The ready / in-flight sequence.
    Main,
    /// The dead-letter sequence.
    Dlq,
    /// The delayed index.
    Delayed,
}

/// The collection that a name selects: "dlq" and "delayed" select theirs,
/// every other name the main sequence.
pub open spec fn q_type_of(s: Seq<char>) -> QType {
    if s == seq!['d', 'l', 'q'] {
        QType::Dlq
    } else if s == seq!['d', 'e', 'l', 'a', 'y', 'e', 'd'] {
        QType::Delayed
    } else {
        QType::Main
    }
}

impl QType {
    /// Reads a collection name; anything but "dlq" or "delayed" means the
    /// main sequence.
    pub fn from_str(input: &str) -> (r: Self)
        ensures
            r == q_type_of(input@),
    {
        proof {
            reveal_strlit("dlq");
            reveal_strlit("delayed");
            assert("dlq"@ =~= seq!['d', 'l', 'q']);
            assert("delayed"@ =~= seq!['d', 'e', 'l', 'a', 'y', 'e', 'd']);
        }
        if str_eq(input, "dlq") {
            QType::Dlq
        } else if str_eq(input, "delayed") {
            QType::Delayed
        } else {
            QType::Main
        }
    }
}

} // verus!
