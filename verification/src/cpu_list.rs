//! The host's logical CPUs, ordered so that cache-sharing neighbours are
//! adjacent. The identifiers are probed from the host by the program around
//! the library; the ordering is decided here.
use vstd::prelude::*;

verus! {

/// One logical CPU with its package, die and core identifiers and its cache
/// identifiers, innermost first; a cache level the host does not report is
/// absent.
#[derive(Clone, Copy, Debug, PartialEq, Eq, Structural)]
pub struct Cpu {
    pub id: usize,
    pub package: usize,
    pub die: usize,
    pub core: usize,
    pub layer_0: Option<usize>,
    pub layer_1: Option<usize>,
    pub layer_2: Option<usize>,
    pub layer_3: Option<usize>,
}

/// A missing cache identifier orders before any present one.
pub open spec fn spec_opt_ord(o: Option<usize>) -> int {
    match o {
        None => -1,
        Some(v) => v as int,
    }
}

/// The adjacency order: package, die, then caches outermost first, then
/// core and id.
pub open spec fn spec_cpu_lt(a: Cpu, b: Cpu) -> bool {
    if a.package != b.package {
        a.package < b.package
    } else if a.die != b.die {
        a.die < b.die
    } else if spec_opt_ord(a.layer_3) != spec_opt_ord(b.layer_3) {
        spec_opt_ord(a.layer_3) < spec_opt_ord(b.layer_3)
    } else if spec_opt_ord(a.layer_2) != spec_opt_ord(b.layer_2) {
        spec_opt_ord(a.layer_2) < spec_opt_ord(b.layer_2)
    } else if spec_opt_ord(a.layer_1) != spec_opt_ord(b.layer_1) {
        spec_opt_ord(a.layer_1) < spec_opt_ord(b.layer_1)
    } else if spec_opt_ord(a.layer_0) != spec_opt_ord(b.layer_0) {
        spec_opt_ord(a.layer_0) < spec_opt_ord(b.layer_0)
    } else if a.core != b.core {
        a.core < b.core
    } else {
        a.id < b.id
    }
}

fn opt_ord(o: &Option<usize>) -> (r: i128)
    ensures
        r as int == spec_opt_ord(*o),
{
    match o {
        None => -1,
        Some(v) => *v as i128,
    }
}

fn cpu_lt(a: &Cpu, b: &Cpu) -> (r: bool)
    ensures
        r == spec_cpu_lt(*a, *b),
{
    if a.package != b.package {
        a.package < b.package
    } else if a.die != b.die {
        a.die < b.die
    } else if opt_ord(&a.layer_3) != opt_ord(&b.layer_3) {
        opt_ord(&a.layer_3) < opt_ord(&b.layer_3)
    } else if opt_ord(&a.layer_2) != opt_ord(&b.layer_2) {
        opt_ord(&a.layer_2) < opt_ord(&b.layer_2)
    } else if opt_ord(&a.layer_1) != opt_ord(&b.layer_1) {
        opt_ord(&a.layer_1) < opt_ord(&b.layer_1)
    } else if opt_ord(&a.layer_0) != opt_ord(&b.layer_0) {
        opt_ord(&a.layer_0) < opt_ord(&b.layer_0)
    } else if a.core != b.core {
        a.core < b.core
    } else {
        a.id < b.id
    }
}

/// Insertion of one CPU into a sorted run, after any that order the same.
pub open spec fn spec_insert_cpu(x: Cpu, s: Seq<Cpu>) -> Seq<Cpu>
    decreases s.len(),
{
    if s.len() == 0 {
        seq![x]
    } else if spec_cpu_lt(x, s[0]) {
        seq![x] + s
    } else {
        seq![s[0]] + spec_insert_cpu(x, s.drop_first())
    }
}

/// The probed CPUs in adjacency order, ties kept in probe order.
pub open spec fn spec_sort_cpus(s: Seq<Cpu>) -> Seq<Cpu>
    decreases s.len(),
{
    if s.len() == 0 {
        Seq::empty()
    } else {
        spec_insert_cpu(s.last(), spec_sort_cpus(s.drop_last()))
    }
}

proof fn lemma_insert_cpu_at(x: Cpu, s: Seq<Cpu>, j: int)
    requires
        0 <= j <= s.len(),
        forall|k: int| 0 <= k < j ==> !spec_cpu_lt(x, #[trigger] s[k]),
        j < s.len() ==> spec_cpu_lt(x, s[j]),
    ensures
        spec_insert_cpu(x, s) =~= s.take(j) + seq![x] + s.skip(j),
    decreases s.len(),
{
    if s.len() == 0 {
    } else if spec_cpu_lt(x, s[0]) {
        assert(j == 0);
    } else {
        assert(j >= 1);
        let t = s.drop_first();
        lemma_insert_cpu_at(x, t, j - 1);
        assert(seq![s[0]] + (t.take(j - 1) + seq![x] + t.skip(j - 1)) =~= s.take(j) + seq![x]
            + s.skip(j));
    }
}

fn insert_cpu(v: &mut Vec<Cpu>, x: Cpu)
    ensures
        final(v)@ == spec_insert_cpu(x, old(v)@),
{
    let mut j: usize = 0;
    while j < v.len() && !cpu_lt(&x, &v[j])
        invariant
            j <= v@.len(),
            forall|k: int| 0 <= k < j ==> !spec_cpu_lt(x, #[trigger] v@[k]),
        decreases v.len() - j,
    {
        j = j + 1;
    }
    proof {
        lemma_insert_cpu_at(x, v@, j as int);
    }
    v.insert(j, x);
    proof {
        assert(old(v)@.insert(j as int, x) =~= old(v)@.take(j as int) + seq![x] + old(v)@.skip(
            j as int,
        ));
    }
}

/// Orders the probed CPUs by adjacency: package, die, shared caches from the
/// outermost level in, core, id.
pub fn get_cpus(probed: Vec<Cpu>) -> (r: Vec<Cpu>)
    ensures
        r@ == spec_sort_cpus(probed@),
{
    let mut out: Vec<Cpu> = Vec::new();
    let mut i: usize = 0;
    proof {
        assert(probed@.take(0) =~= Seq::<Cpu>::empty());
    }
    while i < probed.len()
        invariant
            i <= probed@.len(),
            out@ == spec_sort_cpus(probed@.take(i as int)),
        decreases probed.len() - i,
    {
        let x = probed[i];
        proof {
            assert(probed@.take(i + 1).drop_last() =~= probed@.take(i as int));
            assert(probed@.take(i + 1).last() == probed@[i as int]);
        }
        insert_cpu(&mut out, x);
        i = i + 1;
    }
    proof {
        assert(probed@.take(probed@.len() as int) =~= probed@);
    }
    out
}

/// The host's CPUs in adjacency order.
#[derive(Clone, Debug)]
pub struct CpuList {
    pub list: Vec<Cpu>,
}

/// The same list, built afresh from a probe.
#[derive(Clone, Debug)]
pub struct CpuListOwned {
    pub list: Vec<Cpu>,
}

impl CpuList {
    /// Orders a probe into an adjacency list.
    pub fn new(probed: Vec<Cpu>) -> (r: CpuList)
        ensures
            r.list@ == spec_sort_cpus(probed@),
    {
        CpuList { list: get_cpus(probed) }
    }

    pub fn len(&self) -> (r: usize)
        ensures
            r == self.list@.len(),
    {
        self.list.len()
    }

    /// The first `amount` adjacent CPUs, or nothing when the host has fewer.
    pub fn get_adjacent(&self, amount: usize) -> (r: Option<Vec<Cpu>>)
        ensures
            amount > self.list@.len() ==> r is None,
            amount <= self.list@.len() ==> r is Some && r->0@ == self.list@.take(amount as int),
    {
        if self.list.len() < amount {
            None
        } else {
            let mut out: Vec<Cpu> = Vec::new();
            let mut i: usize = 0;
            proof {
                assert(self.list@.take(0) =~= Seq::<Cpu>::empty());
            }
            while i < amount
                invariant
                    i <= amount <= self.list@.len(),
                    out@ =~= self.list@.take(i as int),
                decreases amount - i,
            {
                proof {
                    assert(self.list@.take(i + 1) =~= self.list@.take(i as int).push(
                        self.list@[i as int],
                    ));
                }
                out.push(self.list[i]);
                i = i + 1;
            }
            Some(out)
        }
    }

    /// The first `amount` adjacent CPUs.
    pub fn adjacent(&self, amount: usize) -> (r: Option<Vec<Cpu>>)
        ensures
            amount > self.list@.len() ==> r is None,
            amount <= self.list@.len() ==> r is Some && r->0@ == self.list@.take(amount as int),
    {
        self.get_adjacent(amount)
    }

    pub fn as_list(&self) -> (r: &Vec<Cpu>)
        ensures
            r@ == self.list@,
    {
        &self.list
    }
}

impl CpuListOwned {
    /// Orders a probe into an adjacency list.
    pub fn new(probed: Vec<Cpu>) -> (r: CpuListOwned)
        ensures
            r.list@ == spec_sort_cpus(probed@),
    {
        CpuListOwned { list: get_cpus(probed) }
    }
}

} // verus!
