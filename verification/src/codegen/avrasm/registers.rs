//! What the register allocation of the AVR back end keeps: registers handed
//! to different symbols never overlap.
use vstd::prelude::*;
use crate::irgen::function::FunctionV;
use crate::irgen::instruction::SymbolV;
use super::functions::{
    ContextV, first_index, first_pair, new_context_v, pairs_with_next, register_v, u16_register_v,
    u8_register_v,
};
use super::utils::size_of_type;

verus! {

/// The registers that can be handed out: r17 to r23, and r25.
pub open spec fn allocatable(x: int) -> bool {
    (17 <= x <= 23) || x == 25
}

/// `size` bytes from register `r` include register `x`.
pub open spec fn covers(r: usize, size: nat, x: int) -> bool {
    r <= x < r + size
}

/// The allocation of context `c` is sound, `sizes` giving the number of bytes
/// each symbol's register holds: the free registers are distinct and can be
/// handed out; each symbol holds one byte, or two from an even register; the
/// registers a symbol holds can be handed out and are not free; and no
/// register is held by two symbols.
pub open spec fn allocation_sound(c: ContextV, sizes: Map<Seq<char>, nat>) -> bool {
    &&& c.free_registers.no_duplicates()
    &&& forall|i: int| 0 <= i < c.free_registers.len() ==> allocatable(#[trigger] c.free_registers[i] as int)
    &&& sizes.dom() == c.symbol_map.dom()
    &&& forall|t: Seq<char>| #[trigger] sizes.contains_key(t) ==> (sizes[t] == 1 || (sizes[t] == 2
        && c.symbol_map[t] % 2 == 0))
    &&& forall|t: Seq<char>, x: int|
        sizes.contains_key(t) && #[trigger] covers(c.symbol_map[t], sizes[t], x) ==> allocatable(x)
            && !c.free_registers.contains(x as usize)
    &&& forall|t: Seq<char>, u: Seq<char>, x: int|
        sizes.contains_key(t) && sizes.contains_key(u) && t != u && #[trigger] covers(
            c.symbol_map[t],
            sizes[t],
            x,
        ) ==> !#[trigger] covers(c.symbol_map[u], sizes[u], x)
}

/// The number of bytes a new symbol's register holds.
pub open spec fn held_size(s: SymbolV) -> nat {
    if size_of_type(s.datatype) == Some(1usize) {
        1
    } else {
        2
    }
}

/// The sizes after the register of `s` is taken.
pub open spec fn sizes_after(sizes: Map<Seq<char>, nat>, s: SymbolV) -> Map<Seq<char>, nat> {
    if sizes.contains_key(s.title) {
        sizes
    } else {
        sizes.insert(s.title, held_size(s))
    }
}

proof fn lemma_remove_at(s: Seq<usize>, i: int)
    requires
        0 <= i < s.len(),
        s.no_duplicates(),
    ensures
        s.remove(i).no_duplicates(),
        forall|x: usize| #[trigger] s.remove(i).contains(x) <==> (s.contains(x) && x != s[i]),
{
    let r = s.remove(i);
    assert forall|a: int, b: int| 0 <= a < r.len() && 0 <= b < r.len() && a != b implies r[a] != r[b] by {
        let a1 = if a < i { a } else { a + 1 };
        let b1 = if b < i { b } else { b + 1 };
        assert(r[a] == s[a1]);
        assert(r[b] == s[b1]);
    }
    assert forall|x: usize| #[trigger] r.contains(x) <==> (s.contains(x) && x != s[i]) by {
        if r.contains(x) {
            let a = choose|a: int| 0 <= a < r.len() && r[a] == x;
            let a1 = if a < i { a } else { a + 1 };
            assert(s[a1] == x);
            assert(a1 != i);
        }
        if s.contains(x) && x != s[i] {
            let a = choose|a: int| 0 <= a < s.len() && s[a] == x;
            assert(a != i);
            if a < i {
                assert(r[a] == x);
            } else {
                assert(r[a - 1] == x);
            }
        }
    }
}

proof fn lemma_first_pair(fr: Seq<usize>, from: nat)
    ensures
        first_pair(fr, from) matches Some(i) ==> from <= i < fr.len() && pairs_with_next(fr, i as int),
    decreases fr.len() - from,
{
    if from < fr.len() && !pairs_with_next(fr, from as int) {
        lemma_first_pair(fr, from + 1);
    }
}

proof fn lemma_first_index(s: Seq<usize>, x: usize, from: nat)
    requires
        exists|k: int| from <= k < s.len() && s[k] == x,
    ensures
        first_index(s, x, from) < s.len(),
        s[first_index(s, x, from) as int] == x,
    decreases s.len() - from,
{
    if from < s.len() && s[from as int] != x {
        let k = choose|k: int| from <= k < s.len() && s[k] == x;
        assert(k != from);
        lemma_first_index(s, x, from + 1);
    }
}

/// A new context is sound: nothing is held, and the free registers are r17
/// to r23 and r25.
pub proof fn law_new_context_sound(f: FunctionV)
    ensures
        allocation_sound(new_context_v(f), Map::empty()),
{
    let fr = new_context_v(f).free_registers;
    assert(fr.no_duplicates()) by {
        assert forall|a: int, b: int| 0 <= a < fr.len() && 0 <= b < fr.len() && a != b implies fr[a] != fr[b] by {
        }
    }
    assert(Map::<Seq<char>, nat>::empty().dom() =~= new_context_v(f).symbol_map.dom());
}

/// Taking the register of a symbol keeps the allocation sound: a symbol seen
/// before keeps its register, and a new one gets free registers, one byte or
/// an even pair, that no other symbol holds.
pub proof fn law_register_allocation_sound(c: ContextV, sizes: Map<Seq<char>, nat>, s: SymbolV)
    requires
        allocation_sound(c, sizes),
        register_v(c, s) matches Some((Ok(_), _)),
    ensures
        register_v(c, s) matches Some((Ok(r), c1)) && c1.symbol_map.contains_key(s.title)
            && c1.symbol_map[s.title] == r && allocation_sound(c1, sizes_after(sizes, s)),
{
    if !c.symbol_map.contains_key(s.title) {
        let n = size_of_type(s.datatype)->Some_0;
        let fr = c.free_registers;
        let sizes1 = sizes.insert(s.title, held_size(s));
        let (res, c0) = if n == 1 { u8_register_v(c) } else { u16_register_v(c) };
        let r = res->Ok_0;
        let c1 = ContextV { symbol_map: c0.symbol_map.insert(s.title, r), ..c0 };
        assert(register_v(c, s) == Some((Ok::<usize, (crate::cli::Severity, Seq<char>)>(r), c1)));
        let fr1 = c1.free_registers;
        // The registers taken, and what is left free.
        if n == 1 {
            assert(fr.len() > 0);
            assert(fr1 == fr.drop_last());
            assert(fr.drop_last() =~= fr.remove(fr.len() - 1));
            lemma_remove_at(fr, fr.len() - 1);
            assert(r == fr[fr.len() - 1]);
            assert(fr.contains(r));
            assert(held_size(s) == 1);
        } else {
            lemma_first_pair(fr, 0);
            let i = first_pair(fr, 0)->Some_0 as int;
            let v = fr[i];
            let f1 = fr.remove(i);
            lemma_remove_at(fr, i);
            assert(fr.contains((v + 1) as usize));
            assert((v + 1) as usize != v);
            assert(f1.contains((v + 1) as usize));
            let k = choose|k: int| 0 <= k < f1.len() && f1[k] == (v + 1) as usize;
            lemma_first_index(f1, (v + 1) as usize, 0);
            let j = first_index(f1, (v + 1) as usize, 0) as int;
            lemma_remove_at(f1, j);
            assert(fr1 == f1.remove(j));
            assert(r == v);
            assert(fr.contains(v)) by {
                assert(fr[i] == v);
            }
            assert(held_size(s) == 2);
        }
        assert(sizes1.dom() =~= c1.symbol_map.dom());
        assert forall|t: Seq<char>, x: int|
            sizes1.contains_key(t) && #[trigger] covers(c1.symbol_map[t], sizes1[t], x) implies allocatable(x)
                && !fr1.contains(x as usize) by {
            if t == s.title {
                assert(fr.contains(x as usize));
                let q = choose|q: int| 0 <= q < fr.len() && fr[q] == x as usize;
                assert(allocatable(fr[q] as int));
            } else {
                assert(covers(c.symbol_map[t], sizes[t], x));
            }
        }
        assert forall|t: Seq<char>, u: Seq<char>, x: int|
            sizes1.contains_key(t) && sizes1.contains_key(u) && t != u && #[trigger] covers(
                c1.symbol_map[t],
                sizes1[t],
                x,
            ) implies !#[trigger] covers(c1.symbol_map[u], sizes1[u], x) by {
            if t == s.title {
                assert(fr.contains(x as usize));
                if covers(c1.symbol_map[u], sizes1[u], x) {
                    assert(covers(c.symbol_map[u], sizes[u], x));
                }
            } else if u == s.title {
                assert(covers(c.symbol_map[t], sizes[t], x));
                if covers(c1.symbol_map[u], sizes1[u], x) {
                    assert(fr.contains(x as usize));
                }
            } else {
                assert(covers(c.symbol_map[t], sizes[t], x));
            }
        }
        assert forall|i: int| 0 <= i < fr1.len() implies allocatable(#[trigger] fr1[i] as int) by {
            assert(fr1.contains(fr1[i]));
            assert(fr.contains(fr1[i]));
            let q = choose|q: int| 0 <= q < fr.len() && fr[q] == fr1[i];
            assert(allocatable(fr[q] as int));
        }
        assert(sizes_after(sizes, s) == sizes1);
    }
}

/// A request for the register of `s` (what `get_register` answers).
#[verifier::opaque]
pub open spec fn request(c: ContextV, s: SymbolV) -> Option<(Result<usize, (crate::cli::Severity, Seq<char>)>, ContextV)> {
    register_v(c, s)
}

/// The context and the sizes of the registers held after taking, in order,
/// the registers of `syms` (`None` where one of the requests fails).
pub open spec fn allocated(c: ContextV, sizes: Map<Seq<char>, nat>, syms: Seq<SymbolV>) -> Option<
    (ContextV, Map<Seq<char>, nat>),
>
    decreases syms.len(),
{
    if syms.len() == 0 {
        Some((c, sizes))
    } else {
        match allocated(c, sizes, syms.drop_last()) {
            Some((c0, z0)) => match request(c0, syms.last()) {
                Some((Ok(_), c1)) => Some((c1, sizes_after(z0, syms.last()))),
                _ => None,
            },
            None => None,
        }
    }
}

/// The register handed out for the `k`-th request of `syms`.
pub open spec fn register_at(c: ContextV, sizes: Map<Seq<char>, nat>, syms: Seq<SymbolV>, k: int) -> usize {
    request(allocated(c, sizes, syms.take(k))->Some_0.0, syms[k])->Some_0.0->Ok_0
}

/// One request that succeeds keeps the allocation sound, records the register
/// it answers with, and keeps every register already handed out.
proof fn lemma_request(c: ContextV, sizes: Map<Seq<char>, nat>, s: SymbolV)
    requires
        allocation_sound(c, sizes),
        request(c, s) matches Some((Ok(_), _)),
    ensures
        allocation_sound(request(c, s)->Some_0.1, sizes_after(sizes, s)),
        request(c, s)->Some_0.1.symbol_map.contains_key(s.title),
        request(c, s)->Some_0.1.symbol_map[s.title] == request(c, s)->Some_0.0->Ok_0,
        forall|t: Seq<char>| #[trigger] c.symbol_map.contains_key(t) ==> request(c, s)->Some_0.1.symbol_map.contains_key(t)
            && request(c, s)->Some_0.1.symbol_map[t] == c.symbol_map[t],
{
    reveal(request);
    law_register_allocation_sound(c, sizes, s);
}

/// Requests in turn keep the allocation sound and every register handed out.
proof fn lemma_allocated_sound(c: ContextV, sizes: Map<Seq<char>, nat>, syms: Seq<SymbolV>)
    requires
        allocation_sound(c, sizes),
        allocated(c, sizes, syms) is Some,
    ensures
        allocation_sound(allocated(c, sizes, syms)->Some_0.0, allocated(c, sizes, syms)->Some_0.1),
        forall|t: Seq<char>| #[trigger] c.symbol_map.contains_key(t) ==> allocated(c, sizes, syms)->Some_0.0.symbol_map.contains_key(t)
            && allocated(c, sizes, syms)->Some_0.0.symbol_map[t] == c.symbol_map[t],
    decreases syms.len(),
{
    if syms.len() > 0 {
        lemma_allocated_sound(c, sizes, syms.drop_last());
        let (c0, z0) = allocated(c, sizes, syms.drop_last())->Some_0;
        lemma_request(c0, z0, syms.last());
    }
}

/// Each request of a run is answered with the register its symbol keeps.
proof fn lemma_allocated_registers(c: ContextV, sizes: Map<Seq<char>, nat>, syms: Seq<SymbolV>, k: int)
    requires
        allocation_sound(c, sizes),
        allocated(c, sizes, syms) is Some,
        0 <= k < syms.len(),
    ensures
        allocated(c, sizes, syms)->Some_0.0.symbol_map.contains_key(syms[k].title),
        allocated(c, sizes, syms)->Some_0.0.symbol_map[syms[k].title] == register_at(c, sizes, syms, k),
    decreases syms.len(),
{
    let p = syms.drop_last();
    lemma_allocated_sound(c, sizes, p);
    let (c0, z0) = allocated(c, sizes, p)->Some_0;
    lemma_request(c0, z0, syms.last());
    if k < syms.len() - 1 {
        lemma_allocated_registers(c, sizes, p, k);
        assert(syms.take(k) =~= p.take(k));
        assert(syms[k] == p[k]);
    } else {
        assert(syms.take(k) =~= p);
    }
}

/// The registers of a run of requests on a new context never overlap: each
/// request that succeeds is answered with the register its symbol keeps (a
/// symbol asked for again gets the same register), and, the sizes being the
/// bytes each symbol's register holds, the registers of two different symbols
/// share no register and lie in r17 to r23 and r25, and a two byte symbol
/// holds an even register and the next.
pub proof fn law_registers_never_overlap(f: FunctionV, syms: Seq<SymbolV>)
    requires
        allocated(new_context_v(f), Map::empty(), syms) is Some,
    ensures
        ({
            let (c, sizes) = allocated(new_context_v(f), Map::empty(), syms)->Some_0;
            &&& allocation_sound(c, sizes)
            &&& forall|k: int|
                0 <= k < syms.len() ==> c.symbol_map[#[trigger] syms[k].title] == register_at(
                    new_context_v(f),
                    Map::empty(),
                    syms,
                    k,
                )
            &&& forall|t: Seq<char>| #[trigger] sizes.contains_key(t) ==> (sizes[t] == 1 || (sizes[t] == 2
                && c.symbol_map[t] % 2 == 0))
            &&& forall|t: Seq<char>, u: Seq<char>, x: int|
                sizes.contains_key(t) && sizes.contains_key(u) && t != u && #[trigger] covers(
                    c.symbol_map[t],
                    sizes[t],
                    x,
                ) ==> allocatable(x) && !#[trigger] covers(c.symbol_map[u], sizes[u], x)
        }),
{
    law_new_context_sound(f);
    lemma_allocated_sound(new_context_v(f), Map::empty(), syms);
    assert forall|k: int| 0 <= k < syms.len() implies allocated(new_context_v(f), Map::empty(), syms)->Some_0.0.symbol_map[
        #[trigger] syms[k].title] == register_at(new_context_v(f), Map::empty(), syms, k) by {
        lemma_allocated_registers(new_context_v(f), Map::empty(), syms, k);
    }
}

} // verus!
