//! The parse-failure type: a list of human-readable diagnostics.

use vstd::prelude::*;

verus! {

/// Each diagnostic, followed by a line break.
pub open spec fn joined_lines(msgs: Seq<Seq<char>>) -> Seq<char>
    decreases msgs.len(),
{
    if msgs.len() == 0 {
        Seq::empty()
    } else {
        joined_lines(msgs.drop_last()) + msgs.last() + seq!['\n']
    }
}

/// A failed strict parse: the diagnostics the parser collected.
#[derive(Debug, Clone, PartialEq, Eq, Hash)]
pub struct ParseError(pub Vec<String>);

impl ParseError {
    /// The diagnostics, one per line, in order.
    pub open spec fn messages(self) -> Seq<Seq<char>> {
        self.0.deep_view()
    }

    /// Render the diagnostics, one per line.
    pub fn to_string(&self) -> (r: String)
        ensures
            r@ == joined_lines(self.messages()),
    {
        let mut out = String::new();
        let ghost all = self.0.deep_view();
        let mut i: usize = 0;
        while i < self.0.len()
            invariant
                i <= self.0.len(),
                all == self.0.deep_view(),
                out@ == joined_lines(all.subrange(0, i as int)),
            decreases self.0.len() - i,
        {
            proof {
                assert(all.subrange(0, i + 1).drop_last() =~= all.subrange(0, i as int));
                assert(all.subrange(0, i + 1).last() == all[i as int]);
                assert(all[i as int] == self.0@[i as int]@);
            }
            out.append(self.0[i].as_str());
            out.append("\n");
            proof {
                assert("\n"@ =~= seq!['\n']) by {
                    reveal_strlit("\n");
                }
            }
            i = i + 1;
        }
        proof {
            assert(all.subrange(0, all.len() as int) =~= all);
        }
        out
    }
}

} // verus!
