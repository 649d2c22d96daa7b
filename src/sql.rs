use vstd::prelude::*;
use crate::engine::CanonicalBatch;

verus! {

/// `s` with each single quote doubled.
pub open spec fn escape_single_quotes(s: Seq<char>) -> Seq<char>
    decreases s.len(),
{
    if s.len() == 0 {
        Seq::empty()
    } else {
        escape_single_quotes(s.drop_last()) + if s.last() == '\'' {
            seq!['\'', '\'']
        } else {
            seq![s.last()]
        }
    }
}

/// `s` as an SQL string literal.
pub open spec fn sql_literal(s: Seq<char>) -> Seq<char> {
    seq!['\''] + escape_single_quotes(s) + seq!['\'']
}

/// The literals of `v`, separated by commas.
pub open spec fn sql_literal_list(v: Seq<Seq<char>>) -> Seq<char>
    decreases v.len(),
{
    if v.len() == 0 {
        Seq::empty()
    } else if v.len() == 1 {
        sql_literal(v[0])
    } else {
        sql_literal_list(v.drop_last()) + seq![','] + sql_literal(v.last())
    }
}

/// Writes `s` as an SQL string literal: in single quotes, each single quote
/// inside doubled.
pub fn sql_quote(s: &str) -> (r: String)
    ensures
        r@ == sql_literal(s@),
{
    proof { reveal_strlit("'"); }
    let n = s.unicode_len();
    let mut acc = String::new();
    acc.append("'");
    let mut i: usize = 0;
    while i < n
        invariant
            n == s@.len(),
            i <= n,
            acc@ == seq!['\''] + escape_single_quotes(s@.subrange(0, i as int)),
        decreases n - i,
    {
        let c = s.get_char(i);
        let ghost before = acc@;
        acc.append(s.substring_char(i, i + 1));
        if c == '\'' {
            acc.append("'");
        }
        proof {
            reveal_strlit("'");
            let pre = s@.subrange(0, i + 1);
            assert(pre.drop_last() =~= s@.subrange(0, i as int));
            assert(pre.last() == c);
            assert(s@.subrange(i as int, i + 1) =~= seq![c]);
            if c == '\'' {
                assert(acc@ =~= before + seq!['\'', '\'']);
            } else {
                assert(acc@ =~= before + seq![c]);
            }
            assert(acc@ =~= seq!['\''] + escape_single_quotes(pre));
        }
        i = i + 1;
    }
    acc.append("'");
    assert(s@.subrange(0, n as int) =~= s@);
    acc
}

impl CanonicalBatch {
    /// The batch's locations as a comma-separated list of SQL string literals,
    /// for a statement that replaces the rows of these locations.
    pub fn location_list_sql(&self) -> (r: String)
        ensures
            r@ == sql_literal_list(self.locations@.map_values(|l: String| l@)),
    {
        let ghost v = self.locations@.map_values(|l: String| l@);
        proof { reveal_strlit(","); }
        let mut acc = String::new();
        let mut i: usize = 0;
        while i < self.locations.len()
            invariant
                i <= self.locations@.len(),
                v == self.locations@.map_values(|l: String| l@),
                acc@ == sql_literal_list(v.subrange(0, i as int)),
            decreases self.locations@.len() - i,
        {
            let q = sql_quote(self.locations[i].as_str());
            proof {
                let pre = v.subrange(0, i + 1);
                assert(pre.drop_last() =~= v.subrange(0, i as int));
                assert(pre.last() == self.locations@[i as int]@);
            }
            let ghost before = acc@;
            if i > 0 {
                acc.append(",");
            }
            acc.append(q.as_str());
            proof {
                reveal_strlit(",");
                let pre = v.subrange(0, i + 1);
                if i > 0 {
                    assert(acc@ =~= before + seq![','] + sql_literal(pre.last()));
                } else {
                    assert(before.len() == 0);
                    assert(acc@ =~= sql_literal(pre[0]));
                }
            }
            i = i + 1;
        }
        assert(v.subrange(0, v.len() as int) =~= v);
        acc
    }
}

} // verus!
