//! Sharing one register among symbols whose live ranges never meet.
use vstd::prelude::*;
use crate::irgen::function::{Function, FunctionV, all_symbols, jumps_resolved, reachable, reads_writes, vec_contains};
use crate::irgen::instruction::{Symbol, SymbolV, Value, ValueV};
use super::registers::{substitute_all, substitute_in};
use super::laws::lemma_substitute_all_in_place;

verus! {

/// Position `p` lies on a way from a write to a read: some write (of the
/// writes `rw.1`) reaches it, and it reaches some read (of `rw.0`).
pub open spec fn in_domain(f: FunctionV, rw: (Seq<usize>, Seq<usize>), p: usize) -> bool {
    &&& exists|k: int| 0 <= k < rw.1.len() && #[trigger] reachable(f, rw.1[k], p)
    &&& exists|k: int| 0 <= k < rw.0.len() && #[trigger] reachable(f, p, rw.0[k])
}

/// The positions below `n` that lie in the domain, in order.
pub open spec fn domain_below(f: FunctionV, rw: (Seq<usize>, Seq<usize>), n: nat) -> Seq<usize>
    decreases n,
{
    if n == 0 {
        Seq::empty()
    } else {
        let d = domain_below(f, rw, (n - 1) as nat);
        if in_domain(f, rw, (n - 1) as usize) {
            d.push((n - 1) as usize)
        } else {
            d
        }
    }
}

/// The domain of symbol `s`: the positions, in order, that lie between a
/// write of it and a read of it.
pub open spec fn register_domain(f: FunctionV, s: SymbolV) -> Seq<usize> {
    domain_below(f, reads_writes(f.instructions, ValueV::Symbol(s)), f.instructions.len() as nat)
}

/// The domain of a register: every position between one of its writes and one of its reads.
pub fn get_register_domain(func: &Function, symbol: &Symbol) -> (r: Vec<usize>)
    requires
        func@.instructions.len() > 0,
        jumps_resolved(func@),
    ensures
        r@ == register_domain(func@, symbol@),
{
    let ghost g = func@;
    let (reads, writes) = func.get_reads_writes_for(Value::Symbol(symbol.clone()));
    let ghost rw = (reads@, writes@);
    let mut from_writes: Vec<Vec<usize>> = Vec::new();
    let mut k: usize = 0;
    while k < writes.len()
        invariant
            k <= writes@.len(),
            from_writes@.len() == k,
            g == func@,
            g.instructions.len() > 0,
            jumps_resolved(g),
            forall|m: int, x: usize| 0 <= m < k ==> (#[trigger] from_writes@[m]@.contains(x) <==> reachable(g, writes@[m], x)),
        decreases writes@.len() - k,
    {
        let e = func.get_explored_from(writes[k]);
        from_writes.push(e);
        k = k + 1;
    }
    let n = func.instructions.len();
    let mut r: Vec<usize> = Vec::new();
    let mut p: usize = 0;
    while p < n
        invariant
            p <= n,
            n == g.instructions.len(),
            g == func@,
            g.instructions.len() > 0,
            jumps_resolved(g),
            rw == (reads@, writes@),
            from_writes@.len() == writes@.len(),
            forall|m: int, x: usize| 0 <= m < writes@.len() ==> (#[trigger] from_writes@[m]@.contains(x) <==> reachable(g, writes@[m], x)),
            r@ == domain_below(g, rw, p as nat),
        decreases n - p,
    {
        let mut written = false;
        let mut m: usize = 0;
        while m < from_writes.len()
            invariant
                m <= from_writes@.len(),
                from_writes@.len() == writes@.len(),
                forall|q: int, x: usize| 0 <= q < writes@.len() ==> (#[trigger] from_writes@[q]@.contains(x) <==> reachable(g, writes@[q], x)),
                written == exists|q: int| 0 <= q < m && #[trigger] reachable(g, writes@[q], p),
            decreases from_writes@.len() - m,
        {
            if vec_contains(&from_writes[m], p) {
                assert(reachable(g, writes@[m as int], p));
                written = true;
            }
            m = m + 1;
        }
        let mut read = false;
        if written {
            let ahead = func.get_explored_from(p);
            let mut q: usize = 0;
            while q < reads.len()
                invariant
                    q <= reads@.len(),
                    forall|x: usize| ahead@.contains(x) <==> reachable(g, p, x),
                    read == exists|t: int| 0 <= t < q && #[trigger] reachable(g, p, reads@[t]),
                decreases reads@.len() - q,
            {
                if vec_contains(&ahead, reads[q]) {
                    assert(reachable(g, p, reads@[q as int]));
                    read = true;
                }
                q = q + 1;
            }
        }
        proof {
            assert(rw.1 == writes@ && rw.0 == reads@);
            if in_domain(g, rw, p) {
                let k1 = choose|k: int| 0 <= k < rw.1.len() && #[trigger] reachable(g, rw.1[k], p);
                let k2 = choose|k: int| 0 <= k < rw.0.len() && #[trigger] reachable(g, p, rw.0[k]);
                assert(reachable(g, writes@[k1], p));
                assert(written);
                assert(reachable(g, p, reads@[k2]));
                assert(read);
            }
            if written && read {
                let k1 = choose|q: int| 0 <= q < writes@.len() && #[trigger] reachable(g, writes@[q], p);
                let k2 = choose|t: int| 0 <= t < reads@.len() && #[trigger] reachable(g, p, reads@[t]);
                assert(reachable(g, rw.1[k1], p));
                assert(reachable(g, p, rw.0[k2]));
            }
        }
        if written && read {
            r.push(p);
        }
        p = p + 1;
    }
    r
}

/// Where an entry with a domain of length `len` goes among `order`: after
/// every entry whose domain is not longer.
pub open spec fn insert_position(order: Seq<usize>, doms: Seq<Seq<usize>>, len: nat) -> int
    decreases order.len(),
{
    if order.len() == 0 {
        0
    } else if doms[order[0] as int].len() > len {
        0
    } else {
        1 + insert_position(order.drop_first(), doms, len)
    }
}

/// The symbol numbers below `n`, ordered by the length of their domains,
/// shortest first; numbers with domains of equal length keep their order.
pub open spec fn by_domain_length(doms: Seq<Seq<usize>>, n: nat) -> Seq<usize>
    decreases n,
{
    if n == 0 {
        Seq::empty()
    } else {
        let o = by_domain_length(doms, (n - 1) as nat);
        o.insert(insert_position(o, doms, doms[n - 1].len()), (n - 1) as usize)
    }
}

/// Some position of `a` is also in `b`.
pub open spec fn overlaps(a: Seq<usize>, b: Seq<usize>) -> bool {
    exists|k: int| 0 <= k < a.len() && b.contains(#[trigger] a[k])
}

/// The state of the grouping: the groups closed so far, the open group, and
/// the positions the open group covers.
pub type GroupState = (Seq<Seq<usize>>, Seq<usize>, Seq<usize>);

/// One step of the grouping, for symbol number `i`: it joins the open group
/// when it has the type of the group's first symbol and its domain meets
/// none of the group's; otherwise the open group closes and `i` opens the
/// next one.
pub open spec fn group_step(st: GroupState, i: usize, syms: Seq<SymbolV>, doms: Seq<Seq<usize>>) -> GroupState {
    let (closed, cur, covered) = st;
    if cur.len() == 0 {
        (closed, seq![i], doms[i as int])
    } else if syms[i as int].datatype == syms[cur[0] as int].datatype && !overlaps(doms[i as int], covered) {
        (closed, cur.push(i), covered + doms[i as int])
    } else {
        (closed.push(cur), seq![i], doms[i as int])
    }
}

/// The grouping after the first `n` symbol numbers of `order`.
pub open spec fn grouped(order: Seq<usize>, syms: Seq<SymbolV>, doms: Seq<Seq<usize>>, n: nat) -> GroupState
    decreases n,
{
    if n == 0 {
        (Seq::empty(), Seq::empty(), Seq::empty())
    } else {
        group_step(grouped(order, syms, doms, (n - 1) as nat), order[n - 1], syms, doms)
    }
}

/// The groups of symbol numbers that share a register, the open one last.
pub open spec fn groups_of(order: Seq<usize>, syms: Seq<SymbolV>, doms: Seq<Seq<usize>>) -> Seq<Seq<usize>> {
    let st = grouped(order, syms, doms, order.len());
    st.0.push(st.1)
}

/// The positions below `n`, in order.
pub open spec fn all_positions(n: nat) -> Seq<usize>
    decreases n,
{
    if n == 0 {
        Seq::empty()
    } else {
        all_positions((n - 1) as nat).push((n - 1) as usize)
    }
}

/// `f` after the first `m` members of group `g` but the first are replaced,
/// everywhere, by its first member.
pub open spec fn merged_group(f: FunctionV, g: Seq<usize>, syms: Seq<SymbolV>, m: nat) -> FunctionV
    decreases m,
{
    if m <= 1 {
        f
    } else {
        let h = merged_group(f, g, syms, (m - 1) as nat);
        substitute_all(
            h,
            all_positions(h.instructions.len() as nat),
            ValueV::Symbol(syms[g[m - 1] as int]),
            ValueV::Symbol(syms[g[0] as int]),
        )
    }
}

/// `f` after merging the first `n` groups of `gs`.
pub open spec fn merged_groups(f: FunctionV, gs: Seq<Seq<usize>>, syms: Seq<SymbolV>, n: nat) -> FunctionV
    decreases n,
{
    if n == 0 {
        f
    } else {
        let h = merged_groups(f, gs, syms, (n - 1) as nat);
        merged_group(h, gs[n - 1], syms, gs[n - 1].len())
    }
}

/// The domains of the symbols of `f`, in order.
pub open spec fn symbol_domains(f: FunctionV) -> Seq<Seq<usize>> {
    let syms = all_symbols(f.instructions);
    Seq::new(syms.len(), |i: int| register_domain(f, syms[i]))
}

/// `f` with its registers combined: the symbols, taken by the length of
/// their domains, shortest first, are grouped greedily (a symbol joins the
/// open group when it has the type of the group's first symbol and its domain
/// meets none of the group's), and every later member of a group is replaced
/// by the group's first.
pub open spec fn domains_combined(f: FunctionV) -> FunctionV {
    let syms = all_symbols(f.instructions);
    let doms = symbol_domains(f);
    let gs = groups_of(by_domain_length(doms, syms.len()), syms, doms);
    merged_groups(f, gs, syms, gs.len())
}

/// The place found by scanning past every entry that is not longer is the
/// insertion place.
proof fn lemma_insert_position(order: Seq<usize>, doms: Seq<Seq<usize>>, len: nat, p: int)
    requires
        0 <= p <= order.len(),
        forall|m: int| 0 <= m < p ==> doms[#[trigger] order[m] as int].len() <= len,
        p < order.len() ==> doms[order[p] as int].len() > len,
    ensures
        insert_position(order, doms, len) == p,
    decreases p,
{
    if p > 0 {
        let o1 = order.drop_first();
        assert forall|m: int| 0 <= m < p - 1 implies doms[#[trigger] o1[m] as int].len() <= len by {
            assert(o1[m] == order[m + 1]);
        }
        if p - 1 < o1.len() {
            assert(o1[p - 1] == order[p]);
        }
        lemma_insert_position(o1, doms, len, p - 1);
        assert(doms[order[0] as int].len() <= len);
    }
}

/// Combine registers whose domains do not overlap
pub fn optimization_combine_domains(f: Function) -> (r: Function)
    requires
        jumps_resolved(f@),
    ensures
        r@ == domains_combined(f@),
{
    let mut func = f;
    let ghost fv = func@;
    let symbols = func.get_all_symbols();
    let ghost syms = all_symbols(fv.instructions);
    let ghost dv = symbol_domains(fv);
    proof {
        assert forall|i: int| 0 <= i < symbols@.len() implies #[trigger] symbols@[i]@ == syms[i] by {
            assert(symbols@.map_values(|s: Symbol| s@)[i] == symbols@[i]@);
        }
    }
    let n = symbols.len();
    // The domain of each symbol.
    let mut doms: Vec<Vec<usize>> = Vec::new();
    let mut i: usize = 0;
    while i < n
        invariant
            i <= n,
            n == symbols@.len(),
            n == syms.len(),
            func@ == fv,
            jumps_resolved(fv),
            dv == symbol_domains(fv),
            syms == all_symbols(fv.instructions),
            forall|q: int| 0 <= q < n ==> #[trigger] symbols@[q]@ == syms[q],
            doms@.len() == i,
            forall|q: int| 0 <= q < i ==> #[trigger] doms@[q]@ == dv[q],
        decreases n - i,
    {
        // A symbol occurs in some instruction, so there is one.
        assert(fv.instructions.len() > 0) by {
            if fv.instructions.len() == 0 {
                assert(all_symbols(fv.instructions) == Seq::<SymbolV>::empty());
            }
        }
        let d = get_register_domain(&func, &symbols[i]);
        doms.push(d);
        i = i + 1;
    }
    // The symbol numbers, by the length of their domains.
    let mut order: Vec<usize> = Vec::new();
    let mut i: usize = 0;
    while i < n
        invariant
            i <= n,
            n == syms.len(),
            doms@.len() == n,
            forall|q: int| 0 <= q < n ==> #[trigger] doms@[q]@ == dv[q],
            dv.len() == n,
            order@ == by_domain_length(dv, i as nat),
            order@.len() == i,
            forall|q: int| 0 <= q < i ==> #[trigger] order@[q] < i,
        decreases n - i,
    {
        let len = doms[i].len();
        let mut p: usize = 0;
        while p < order.len() && doms[order[p]].len() <= len
            invariant
                p <= order@.len(),
                order@.len() == i,
                i < n,
                doms@.len() == n,
                forall|q: int| 0 <= q < i ==> #[trigger] order@[q] < i,
                forall|q: int| 0 <= q < n ==> #[trigger] doms@[q]@ == dv[q],
                len == dv[i as int].len(),
                forall|m: int| 0 <= m < p ==> dv[#[trigger] order@[m] as int].len() <= len,
            decreases order@.len() - p,
        {
            assert(doms@[order@[p as int] as int]@ == dv[order@[p as int] as int]);
            p = p + 1;
        }
        proof {
            if p < order@.len() {
                assert(doms@[order@[p as int] as int]@ == dv[order@[p as int] as int]);
            }
            lemma_insert_position(order@, dv, len as nat, p as int);
        }
        let ghost before = order@;
        order.insert(p, i);
        proof {
            assert(order@ == before.insert(p as int, i));
            assert forall|q: int| 0 <= q < i + 1 implies #[trigger] order@[q] < i + 1 by {
                if q < p {
                    assert(order@[q] == before[q]);
                } else if q > p {
                    assert(order@[q] == before[q - 1]);
                }
            }
        }
        i = i + 1;
    }
    // Group the symbols.
    let mut closed: Vec<Vec<usize>> = Vec::new();
    let mut cur: Vec<usize> = Vec::new();
    let mut covered: Vec<usize> = Vec::new();
    let mut k: usize = 0;
    while k < n
        invariant
            k <= n,
            n == syms.len(),
            n == symbols@.len(),
            order@.len() == n,
            forall|q: int| 0 <= q < n ==> #[trigger] order@[q] < n,
            forall|q: int| 0 <= q < n ==> #[trigger] symbols@[q]@ == syms[q],
            doms@.len() == n,
            forall|q: int| 0 <= q < n ==> #[trigger] doms@[q]@ == dv[q],
            (closed@.map_values(|v: Vec<usize>| v@), cur@, covered@) == grouped(order@, syms, dv, k as nat),
            forall|a: int, b: int| 0 <= a < closed@.len() && 0 <= b < closed@[a]@.len() ==> #[trigger] closed@[a]@[b] < n,
            forall|b: int| 0 <= b < cur@.len() ==> #[trigger] cur@[b] < n,
        decreases n - k,
    {
        let i = order[k];
        let ghost st = grouped(order@, syms, dv, k as nat);
        let ghost cv = closed@.map_values(|v: Vec<usize>| v@);
        let ghost di = dv[i as int];
        assert(doms@[i as int]@ == di);
        if cur.len() == 0 {
            cur.push(i);
            covered = doms[i].clone();
            assert(cur@ =~= seq![i]);
        } else {
            let same_type = symbols[i].datatype == symbols[cur[0]].datatype;
            let mut meets = false;
            if same_type {
                let mut t: usize = 0;
                while t < doms[i].len()
                    invariant
                        t <= di.len(),
                        i < n,
                        doms@.len() == n,
                        doms@[i as int]@ == di,
                        meets == exists|q: int| 0 <= q < t && covered@.contains(#[trigger] di[q]),
                    decreases di.len() - t,
                {
                    if vec_contains(&covered, doms[i][t]) {
                        assert(covered@.contains(di[t as int]));
                        meets = true;
                    }
                    t = t + 1;
                }
            }
            assert(symbols@[i as int]@ == syms[i as int]);
            assert(symbols@[cur@[0] as int]@ == syms[cur@[0] as int]);
            if same_type && !meets {
                cur.push(i);
                let mut t: usize = 0;
                let ghost c0 = covered@;
                while t < doms[i].len()
                    invariant
                        t <= di.len(),
                        i < n,
                        doms@.len() == n,
                        doms@[i as int]@ == di,
                        covered@ == c0 + di.take(t as int),
                    decreases di.len() - t,
                {
                    covered.push(doms[i][t]);
                    assert(c0 + di.take(t + 1) =~= (c0 + di.take(t as int)).push(di[t as int]));
                    t = t + 1;
                }
                assert(di.take(di.len() as int) =~= di);
            } else {
                let ghost cl = closed@;
                let done = cur;
                closed.push(done);
                assert(closed@.map_values(|v: Vec<usize>| v@) =~= cv.push(st.1));
                cur = Vec::new();
                cur.push(i);
                assert(cur@ =~= seq![i]);
                covered = doms[i].clone();
                assert forall|a: int, b: int| 0 <= a < closed@.len() && 0 <= b < closed@[a]@.len() implies #[trigger] closed@[a]@[b] < n by {
                    if a < cl.len() {
                        assert(closed@[a] == cl[a]);
                    }
                }
            }
        }
        assert(grouped(order@, syms, dv, (k + 1) as nat) == group_step(st, i, syms, dv));
        k = k + 1;
    }
    closed.push(cur);
    let ghost gs = groups_of(order@, syms, dv);
    proof {
        assert(order@ == by_domain_length(dv, syms.len()));
        assert(closed@.map_values(|v: Vec<usize>| v@) =~= gs);
    }
    // Merge each group into its first member.
    let len = func.instructions.len();
    let mut gi: usize = 0;
    while gi < closed.len()
        invariant
            gi <= closed@.len(),
            closed@.map_values(|v: Vec<usize>| v@) == gs,
            n == syms.len(),
            n == symbols@.len(),
            forall|q: int| 0 <= q < n ==> #[trigger] symbols@[q]@ == syms[q],
            forall|a: int, b: int| 0 <= a < closed@.len() && 0 <= b < closed@[a]@.len() ==> #[trigger] closed@[a]@[b] < n,
            func@ == merged_groups(fv, gs, syms, gi as nat),
            func@.instructions.len() == len,
        decreases closed@.len() - gi,
    {
        let ghost h0 = func@;
        let ghost g = gs[gi as int];
        assert(closed@[gi as int]@ == g);
        let glen = closed[gi].len();
        if glen > 0 {
            let root = Value::Symbol(symbols[closed[gi][0]].clone());
            assert(root@ == ValueV::Symbol(syms[g[0] as int]));
            let mut m: usize = 1;
            while m < glen
                invariant
                    1 <= m <= glen,
                    glen == g.len(),
                    gi < closed@.len(),
                    closed@[gi as int]@ == g,
                    n == symbols@.len(),
                    forall|q: int| 0 <= q < n ==> #[trigger] symbols@[q]@ == syms[q],
                    forall|b: int| 0 <= b < g.len() ==> #[trigger] g[b] < n,
                    root@ == ValueV::Symbol(syms[g[0] as int]),
                    func@ == merged_group(h0, g, syms, m as nat),
                    func@.instructions.len() == len,
                decreases glen - m,
            {
                let v = Value::Symbol(symbols[closed[gi][m]].clone());
                assert(v@ == ValueV::Symbol(syms[g[m as int] as int]));
                let ghost h = func@;
                let mut pos: usize = 0;
                while pos < len
                    invariant
                        pos <= len,
                        h.instructions.len() == len,
                        func@ == substitute_all(h, all_positions(pos as nat), v@, root@),
                        func@.instructions.len() == len,
                    decreases len - pos,
                {
                    assert(all_positions((pos + 1) as nat).drop_last() =~= all_positions(pos as nat));
                    substitute_in(&mut func, pos, &v, &root);
                    pos = pos + 1;
                }
                assert(func@ == merged_group(h0, g, syms, (m + 1) as nat));
                m = m + 1;
            }
        }
        assert(func@ == merged_group(h0, g, syms, g.len()));
        gi = gi + 1;
    }
    func
}

proof fn lemma_all_positions(n: nat)
    requires
        n <= usize::MAX,
    ensures
        all_positions(n).len() == n,
        forall|k: int| 0 <= k < n ==> #[trigger] all_positions(n)[k] == k,
    decreases n,
{
    if n > 0 {
        lemma_all_positions((n - 1) as nat);
        let prev = all_positions((n - 1) as nat);
        assert forall|k: int| 0 <= k < n implies #[trigger] all_positions(n)[k] == k by {
            if k < n - 1 {
                assert(all_positions(n)[k] == prev[k]);
            }
        }
    }
}

/// Merging the first `m` members of a group keeps the number of instructions.
proof fn lemma_merged_group_len(f: FunctionV, g: Seq<usize>, syms: Seq<SymbolV>, m: nat)
    requires
        f.instructions.len() <= usize::MAX,
    ensures
        merged_group(f, g, syms, m).instructions.len() == f.instructions.len(),
        merged_group(f, g, syms, m) == (FunctionV { instructions: merged_group(f, g, syms, m).instructions, ..f }),
    decreases m,
{
    if m > 1 {
        lemma_merged_group_len(f, g, syms, (m - 1) as nat);
        let h = merged_group(f, g, syms, (m - 1) as nat);
        lemma_all_positions(h.instructions.len() as nat);
        lemma_substitute_all_in_place(
            h,
            all_positions(h.instructions.len() as nat),
            ValueV::Symbol(syms[g[m - 1] as int]),
            ValueV::Symbol(syms[g[0] as int]),
        );
    }
}

proof fn lemma_merged_groups_len(f: FunctionV, gs: Seq<Seq<usize>>, syms: Seq<SymbolV>, n: nat)
    requires
        f.instructions.len() <= usize::MAX,
    ensures
        merged_groups(f, gs, syms, n).instructions.len() == f.instructions.len(),
        merged_groups(f, gs, syms, n) == (FunctionV { instructions: merged_groups(f, gs, syms, n).instructions, ..f }),
    decreases n,
{
    if n > 0 {
        lemma_merged_groups_len(f, gs, syms, (n - 1) as nat);
        lemma_merged_group_len(merged_groups(f, gs, syms, (n - 1) as nat), gs[n - 1], syms, gs[n - 1].len());
    }
}

/// Combining registers rewrites instructions in place: the number of
/// instructions stays.
pub proof fn law_combine_domains_in_place(f: FunctionV)
    requires
        f.instructions.len() <= usize::MAX,
    ensures
        domains_combined(f).instructions.len() == f.instructions.len(),
        domains_combined(f) == (FunctionV { instructions: domains_combined(f).instructions, ..f }),
{
    let syms = all_symbols(f.instructions);
    let doms = symbol_domains(f);
    let gs = groups_of(by_domain_length(doms, syms.len()), syms, doms);
    lemma_merged_groups_len(f, gs, syms, gs.len());
}

} // verus!
