//! Code records — the (address, machine-code bytes) pairs that are the unit
//! of encoding — and the stable sort by address that fixes their final order.

use vstd::prelude::*;

verus! {

/// One code record: the absolute injection address and the raw machine-code
/// bytes extracted from the compiled object.
pub struct Code {
    pub addr: u32,
    pub code: Vec<u8>,
}

/// The mathematical model of a record.
#[verifier::ext_equal]
pub ghost struct CodeView {
    pub addr: u32,
    pub code: Seq<u8>,
}

impl View for Code {
    type V = CodeView;

    open spec fn view(&self) -> CodeView {
        CodeView { addr: self.addr, code: self.code@ }
    }
}

pub open spec fn code_views(s: Seq<Code>) -> Seq<CodeView> {
    s.map_values(|c: Code| c@)
}

/// Where a record of address `a` lands when inserted into `s`: after every
/// element whose address is `<= a`, so that ties keep their existing order.
pub open spec fn insert_pos(s: Seq<CodeView>, a: u32) -> int
    decreases s.len(),
{
    if s.len() == 0 {
        0
    } else if s[0].addr <= a {
        1 + insert_pos(s.skip(1), a)
    } else {
        0
    }
}

pub open spec fn insert_sorted(s: Seq<CodeView>, c: CodeView) -> Seq<CodeView> {
    s.insert(insert_pos(s, c.addr), c)
}

/// The stable sort by address: records are inserted in discovery order, each
/// after all records with an address `<= ` its own.
pub open spec fn sort_spec(s: Seq<CodeView>) -> Seq<CodeView>
    decreases s.len(),
{
    if s.len() == 0 {
        Seq::empty()
    } else {
        insert_sorted(sort_spec(s.drop_last()), s.last())
    }
}

pub open spec fn sorted_by_addr(s: Seq<CodeView>) -> bool {
    forall|i: int, j: int| 0 <= i < j < s.len() ==> #[trigger] s[i].addr <= #[trigger] s[j].addr
}

proof fn lemma_insert_pos_props(s: Seq<CodeView>, a: u32)
    ensures
        0 <= insert_pos(s, a) <= s.len(),
        forall|t: int| 0 <= t < insert_pos(s, a) ==> #[trigger] s[t].addr <= a,
        insert_pos(s, a) < s.len() ==> s[insert_pos(s, a)].addr > a,
    decreases s.len(),
{
    if s.len() > 0 && s[0].addr <= a {
        lemma_insert_pos_props(s.skip(1), a);
        assert forall|t: int| 0 <= t < insert_pos(s, a) implies #[trigger] s[t].addr <= a by {
            if t > 0 {
                assert(s.skip(1)[t - 1].addr <= a);
            }
        }
    }
}

proof fn lemma_insert_pos_agrees(s: Seq<CodeView>, a: u32, j: int)
    requires
        0 <= j <= s.len(),
        forall|t: int| 0 <= t < j ==> #[trigger] s[t].addr <= a,
        j < s.len() ==> s[j].addr > a,
    ensures
        insert_pos(s, a) == j,
    decreases j,
{
    if j == 0 {
    } else {
        assert(s[0].addr <= a);
        assert forall|t: int| 0 <= t < j - 1 implies #[trigger] s.skip(1)[t].addr <= a by {
            assert(s[t + 1].addr <= a);
        }
        if j - 1 < s.skip(1).len() {
            assert(s.skip(1)[j - 1] == s[j]);
        }
        lemma_insert_pos_agrees(s.skip(1), a, j - 1);
    }
}

proof fn lemma_insert_sorted_keeps_sorted(s: Seq<CodeView>, c: CodeView)
    requires
        sorted_by_addr(s),
    ensures
        sorted_by_addr(insert_sorted(s, c)),
{
    lemma_insert_pos_props(s, c.addr);
    let p = insert_pos(s, c.addr);
    let r = s.insert(p, c);
    assert forall|i: int, j: int| 0 <= i < j < r.len() implies #[trigger] r[i].addr
        <= #[trigger] r[j].addr by {
        if i < p && j < p {
        } else if i == p || j == p {
            if i < p {
                assert(r[i] == s[i]);
            }
            if j > p {
                assert(r[j] == s[j - 1]);
                if p < s.len() {
                    assert(s[p].addr > c.addr);
                }
            }
        } else {
            if i < p {
                assert(r[i] == s[i]);
            } else {
                assert(r[i] == s[i - 1]);
            }
            assert(r[j] == s[j - 1]);
        }
    }
}

/// Law: the stable sort leaves the records ordered by address.
pub proof fn lemma_sort_spec_sorted(s: Seq<CodeView>)
    ensures
        sorted_by_addr(sort_spec(s)),
    decreases s.len(),
{
    if s.len() > 0 {
        lemma_sort_spec_sorted(s.drop_last());
        lemma_insert_sorted_keeps_sorted(sort_spec(s.drop_last()), s.last());
    }
}

/// Law: the stable sort only reorders — the sorted sequence holds exactly
/// the records of the input, with their multiplicities.
pub proof fn lemma_sort_spec_permutes(s: Seq<CodeView>)
    ensures
        sort_spec(s).to_multiset() == s.to_multiset(),
    decreases s.len(),
{
    broadcast use vstd::seq_lib::to_multiset_insert;
    broadcast use vstd::seq_lib::to_multiset_build;

    if s.len() > 0 {
        lemma_sort_spec_permutes(s.drop_last());
        lemma_insert_pos_props(sort_spec(s.drop_last()), s.last().addr);
        assert(s =~= s.drop_last().push(s.last()));
        assert(sort_spec(s).to_multiset() =~= s.to_multiset());
    } else {
        assert(s =~= Seq::<CodeView>::empty());
        assert(sort_spec(s).to_multiset() =~= s.to_multiset());
    }
}

/// Sort the records by address. The sort is stable: records with equal
/// addresses keep their discovery order, for byte-exact reproducibility.
pub fn sort_by_addr(codes: Vec<Code>) -> (r: Vec<Code>)
    ensures
        code_views(r@) == sort_spec(code_views(codes@)),
{
    let ghost orig = code_views(codes@);
    let mut rest = codes;
    let mut out: Vec<Code> = Vec::new();
    proof {
        assert(code_views(out@) =~= sort_spec(orig.take(0)));
        assert(code_views(rest@) =~= orig.skip(0));
    }
    while rest.len() > 0
        invariant
            rest@.len() <= orig.len(),
            code_views(out@) == sort_spec(orig.take(orig.len() - rest@.len())),
            code_views(rest@) == orig.skip(orig.len() - rest@.len()),
        decreases rest@.len(),
    {
        let ghost consumed = orig.len() - rest@.len();
        let ghost old_rest = rest@;
        let c = rest.remove(0);
        proof {
            assert(c@ == code_views(old_rest)[0]);
            assert(c@ == orig[consumed]);
            assert(rest@ =~= old_rest.skip(1));
            assert forall|t: int| 0 <= t < rest@.len() implies #[trigger] code_views(rest@)[t]
                == orig[consumed + 1 + t] by {
                assert(rest@[t] == old_rest[t + 1]);
                assert(code_views(old_rest)[t + 1] == old_rest[t + 1]@);
                assert(code_views(old_rest)[t + 1] == orig.skip(consumed)[t + 1]);
            }
            assert(code_views(rest@) =~= orig.skip(consumed + 1));
        }
        let ghost sorted_prefix = code_views(out@);
        let mut j: usize = 0;
        while j < out.len() && out[j].addr <= c.addr
            invariant
                j <= out.len(),
                forall|t: int| 0 <= t < j ==> #[trigger] code_views(out@)[t].addr <= c@.addr,
                code_views(out@) == sorted_prefix,
            decreases out.len() - j,
        {
            j = j + 1;
        }
        proof {
            lemma_insert_pos_agrees(sorted_prefix, c@.addr, j as int);
        }
        let ghost old_out = out@;
        out.insert(j, c);
        proof {
            assert(code_views(out@) =~= code_views(old_out).insert(j as int, c@));
            assert(orig.take(consumed + 1).drop_last() =~= orig.take(consumed));
            assert(orig.take(consumed + 1).last() == orig[consumed]);
            assert(code_views(out@) == sort_spec(orig.take(consumed + 1)));
        }
    }
    proof {
        assert(orig.take(orig.len() as int) =~= orig);
    }
    out
}

} // verus!
