//! The order in which copies are made so that none of them overwrites a register
//! that a later one still has to read.
use crate::bytecode::provider::{Provider, TypedProvider};
use crate::bytecode::register::{Register, RegisterSpanIter};
use vstd::prelude::*;

verus! {

/// A copy of a value into a register.
#[derive(Debug, Clone, Copy, PartialEq, Eq, Structural)]
pub struct RegisterCopy {
    /// The register that is written.
    pub result: Register,
    /// The value that is read.
    pub value: TypedProvider,
}

impl RegisterCopy {
    /// Whether the copy reads the register.
    pub open spec fn reads(self, register: Register) -> bool {
        self.value == TypedProvider::Register(register)
    }

    /// Whether the copy is one of a register into itself.
    pub open spec fn is_noop(self) -> bool {
        self.reads(self.result)
    }

    /// The copy with the register `from` replaced by `to` where it is read.
    pub open spec fn redirected(self, from: Register, to: Register) -> Self {
        if self.reads(from) {
            RegisterCopy { value: TypedProvider::Register(to), ..self }
        } else {
            self
        }
    }
}

/// The copies of `params` into the registers from `head` on.
pub open spec fn param_copies(head: int, params: Seq<TypedProvider>) -> Seq<RegisterCopy> {
    Seq::new(
        params.len(),
        |i: int| RegisterCopy { result: Register::at(head + i), value: params[i] },
    )
}

/// The registers that the copies write.
pub open spec fn results_of(copies: Seq<RegisterCopy>) -> Seq<Register> {
    copies.map_values(|copy: RegisterCopy| copy.result)
}

/// Whether one of the copies reads the register.
pub open spec fn is_read(copies: Seq<RegisterCopy>, register: Register) -> bool {
    exists|j: int| 0 <= j < copies.len() && (#[trigger] copies[j]).reads(register)
}

/// Whether the copy number `i` can be made before all others: it overwrites no
/// register that is read.
pub open spec fn is_ready(copies: Seq<RegisterCopy>, i: int) -> bool {
    copies[i].is_noop() || !is_read(copies, copies[i].result)
}

/// The first copy from number `i` on that can be made before all others, or the
/// number of copies if there is none.
pub open spec fn first_ready(copies: Seq<RegisterCopy>, i: nat) -> nat
    decreases copies.len() - i,
{
    if i >= copies.len() {
        copies.len()
    } else if is_ready(copies, i as int) {
        i
    } else {
        first_ready(copies, i + 1)
    }
}

/// The copies with the register `from` replaced by `to` wherever it is read.
pub open spec fn redirected(
    copies: Seq<RegisterCopy>,
    from: Register,
    to: Register,
) -> Seq<RegisterCopy> {
    copies.map_values(|copy: RegisterCopy| copy.redirected(from, to))
}

/// The order in which copies that are meant to happen all at once are made one
/// after the other.
///
/// The first copy that overwrites nothing comes first. If there is none then the
/// copies form cycles: the register that the first copy overwrites is saved in
/// `spare`, from where it is read from then on.
pub open spec fn ordered(copies: Seq<RegisterCopy>, spare: Register) -> Seq<RegisterCopy>
    decreases copies.len(),
{
    let i = first_ready(copies, 0);
    if copies.len() == 0 {
        copies
    } else if i < copies.len() {
        seq![copies[i as int]] + ordered(copies.remove(i as int), spare)
    } else {
        let first = copies[0];
        let saved = RegisterCopy {
            result: spare,
            value: TypedProvider::Register(first.result),
        };
        seq![saved, first] + ordered(redirected(copies.remove(0), first.result, spare), spare)
    }
}

/// Whether the order of the copies needs the spare register since some of them
/// overwrite one another in a cycle.
pub open spec fn has_cycle(copies: Seq<RegisterCopy>) -> bool
    decreases copies.len(),
{
    let i = first_ready(copies, 0);
    if copies.len() == 0 {
        false
    } else if i < copies.len() {
        has_cycle(copies.remove(i as int))
    } else {
        true
    }
}

/// The first copy that can be made before all others is found where it is.
pub proof fn lemma_first_ready(copies: Seq<RegisterCopy>, i: nat)
    requires
        i <= copies.len(),
    ensures
        i <= first_ready(copies, i) <= copies.len(),
        forall|j: int| i <= j < first_ready(copies, i) ==> !#[trigger] is_ready(copies, j),
        first_ready(copies, i) < copies.len() ==> is_ready(
            copies,
            first_ready(copies, i) as int,
        ),
    decreases copies.len() - i,
{
    if i < copies.len() && !is_ready(copies, i as int) {
        lemma_first_ready(copies, i + 1);
    }
}

/// Whether making the copies one after the other overwrites no register that a
/// later copy reads. Copying a register into itself overwrites nothing.
pub open spec fn keeps_inputs(copies: Seq<RegisterCopy>) -> bool {
    forall|i: int, j: int|
        0 <= i < j < copies.len() && (#[trigger] copies[j]).reads((#[trigger] copies[i]).result)
            ==> copies[i].is_noop()
}

/// Copies that overwrite no register which a later one reads stay in their order
/// and need no spare register.
pub proof fn lemma_order_is_kept(copies: Seq<RegisterCopy>, spare: Register)
    requires
        keeps_inputs(copies),
    ensures
        ordered(copies, spare) == copies,
        !has_cycle(copies),
    decreases copies.len(),
{
    if copies.len() > 0 {
        assert(is_ready(copies, 0));
        let rest = copies.remove(0);
        assert(keeps_inputs(rest)) by {
            assert forall|i: int, j: int|
                0 <= i < j < rest.len() && (#[trigger] rest[j]).reads(
                    (#[trigger] rest[i]).result,
                ) implies rest[i].is_noop() by {
                assert(copies[j + 1].reads(copies[i + 1].result));
            }
        }
        lemma_order_is_kept(rest, spare);
        assert(seq![copies[0]] + rest =~= copies);
    }
}

/// Copies that form no cycle are all made, each once, in an order in which none
/// overwrites a register that a later one reads.
pub proof fn lemma_order_without_cycle(copies: Seq<RegisterCopy>, spare: Register)
    requires
        !has_cycle(copies),
    ensures
        ordered(copies, spare).to_multiset() == copies.to_multiset(),
        keeps_inputs(ordered(copies, spare)),
    decreases copies.len(),
{
    broadcast use vstd::seq_lib::group_to_multiset_ensures;

    lemma_first_ready(copies, 0);
    let i = first_ready(copies, 0) as int;
    if copies.len() > 0 {
        let copy = copies[i];
        let rest = copies.remove(i);
        let tail = ordered(rest, spare);
        let all = ordered(copies, spare);
        lemma_order_without_cycle(rest, spare);
        vstd::seq_lib::lemma_multiset_commutative(seq![copy], tail);
        vstd::seq_lib::lemma_multiset_commutative(seq![copy], rest);
        assert(seq![copy] =~= Seq::<RegisterCopy>::empty().push(copy));
        assert(copies.to_multiset() =~= seq![copy].to_multiset().add(rest.to_multiset()));
        assert forall|a: int, b: int|
            0 <= a < b < all.len() && (#[trigger] all[b]).reads(
                (#[trigger] all[a]).result,
            ) implies all[a].is_noop() by {
            assert(all[b] == tail[b - 1]);
            if a == 0 {
                lemma_same_copies(tail, rest);
                assert(tail.contains(tail[b - 1]));
                assert(rest.contains(tail[b - 1]));
                assert(is_read(copies, copy.result));
            } else {
                assert(all[a] == tail[a - 1]);
            }
        }
    }
}

/// Lists of the same copies have the same length and contain the same copies.
proof fn lemma_same_copies(a: Seq<RegisterCopy>, b: Seq<RegisterCopy>)
    requires
        a.to_multiset() == b.to_multiset(),
    ensures
        a.len() == b.len(),
        forall|copy: RegisterCopy| #[trigger] a.contains(copy) <==> b.contains(copy),
{
    vstd::seq_lib::to_multiset_len(a);
    vstd::seq_lib::to_multiset_len(b);
    assert forall|copy: RegisterCopy| #[trigger] a.contains(copy) <==> b.contains(copy) by {
        vstd::seq_lib::to_multiset_contains(a, copy);
        vstd::seq_lib::to_multiset_contains(b, copy);
    }
}

/// The spare register is used only where it is needed: copies form no cycle if
/// there is any order of them in which none overwrites a register that a later
/// one reads.
pub proof fn lemma_cycles_have_no_order(copies: Seq<RegisterCopy>, order: Seq<RegisterCopy>)
    requires
        order.to_multiset() == copies.to_multiset(),
        keeps_inputs(order),
    ensures
        !has_cycle(copies),
    decreases copies.len(),
{
    broadcast use vstd::seq_lib::group_to_multiset_ensures;

    lemma_first_ready(copies, 0);
    let i = first_ready(copies, 0) as int;
    lemma_same_copies(order, copies);
    if copies.len() > 0 {
        // The first copy of the other order overwrites nothing.
        assert(order.contains(order[0]));
        assert(copies.contains(order[0]));
        let k = copies.index_of(order[0]);
        assert(is_ready(copies, k)) by {
            if is_read(copies, copies[k].result) {
                let j = choose|j: int|
                    0 <= j < copies.len() && (#[trigger] copies[j]).reads(copies[k].result);
                assert(copies.contains(copies[j]));
                assert(order.contains(copies[j]));
                let m = order.index_of(copies[j]);
                assert(order[m].reads(order[0].result));
            }
        }
        assert(i <= k);
        let copy = copies[i];
        assert(copies.contains(copy));
        assert(order.contains(copy));
        let p = order.index_of(copy);
        let rest = order.remove(p);
        assert(keeps_inputs(rest)) by {
            assert forall|a: int, b: int|
                0 <= a < b < rest.len() && (#[trigger] rest[b]).reads(
                    (#[trigger] rest[a]).result,
                ) implies rest[a].is_noop() by {
                let a_before = if a < p {
                    a
                } else {
                    a + 1
                };
                let b_before = if b < p {
                    b
                } else {
                    b + 1
                };
                assert(order[b_before].reads(order[a_before].result));
            }
        }
        lemma_cycles_have_no_order(copies.remove(i), rest);
    }
}

/// Whether the copies write ascending registers from `head` on, and read the
/// registers from `head` on that they read in ascending order.
pub open spec fn is_ascending(copies: Seq<RegisterCopy>, head: int) -> bool {
    &&& forall|i: int| 0 <= i < copies.len() ==> head <= (#[trigger] copies[i]).result.index
    &&& forall|i: int, j: int|
        0 <= i < j < copies.len() ==> (#[trigger] copies[i]).result.index < (
        #[trigger] copies[j]).result.index
    &&& forall|i: int, j: int, a: Register, b: Register|
        0 <= i < j < copies.len() && (#[trigger] copies[i].reads(a)) && (
        #[trigger] copies[j].reads(b)) && head <= a.index && head <= b.index ==> a.index
            <= b.index
}

/// Whether a copy reads a register from `head` on and writes a greater one.
spec fn is_upwards(copy: RegisterCopy, head: int) -> bool {
    copy.value matches Provider::Register(value) && head <= value.index < copy.result.index
}

/// The last copy that reads a register from `head` on and writes a greater one.
proof fn lemma_last_upwards(copies: Seq<RegisterCopy>, head: int, i: int) -> (last: int)
    requires
        0 <= i < copies.len(),
        is_upwards(copies[i], head),
    ensures
        0 <= last < copies.len(),
        is_upwards(copies[last], head),
        forall|j: int| last < j < copies.len() ==> !is_upwards(#[trigger] copies[j], head),
    decreases copies.len() - i,
{
    if exists|j: int| i < j < copies.len() && is_upwards(#[trigger] copies[j], head) {
        let j = choose|j: int| i < j < copies.len() && is_upwards(#[trigger] copies[j], head);
        lemma_last_upwards(copies, head, j)
    } else {
        i
    }
}

/// Ascending copies form no cycle.
proof fn lemma_ascending_copies_have_no_cycle(copies: Seq<RegisterCopy>, head: int)
    requires
        is_ascending(copies, head),
    ensures
        !has_cycle(copies),
    decreases copies.len(),
{
    lemma_first_ready(copies, 0);
    let i = first_ready(copies, 0) as int;
    if copies.len() == 0 {
    } else if i < copies.len() {
        let rest = copies.remove(i);
        assert(is_ascending(rest, head)) by {
            let before = |k: int|
                if k < i {
                    k
                } else {
                    k + 1
                };
            assert forall|k: int| 0 <= k < rest.len() implies #[trigger] rest[k] == copies[before(
                k,
            )] by {}
        }
        lemma_ascending_copies_have_no_cycle(rest, head);
    } else {
        // The copy that reads what the first one writes is one to a greater
        // register.
        assert(!is_ready(copies, 0));
        let reader = choose|j: int|
            0 <= j < copies.len() && (#[trigger] copies[j]).reads(copies[0].result);
        assert(copies[0].result.index < copies[reader].result.index);
        // What the last such copy writes is read by none.
        let last = lemma_last_upwards(copies, head, reader);
        assert(!is_ready(copies, last));
        let next = choose|j: int|
            0 <= j < copies.len() && (#[trigger] copies[j]).reads(copies[last].result);
        let value = copies[last].value->Register_0;
        assert(copies[last].reads(value));
        if next > last {
            assert(copies[last].result.index < copies[next].result.index);
            assert(is_upwards(copies[next], head));
        } else {
            assert(next < last);
        }
    }
}

/// Parameters need no spare register if those of them that are in the registers
/// from `head` on, where the parameters are copied to, are in ascending order.
pub proof fn lemma_ascending_params_need_no_spare(head: int, params: Seq<TypedProvider>)
    requires
        0 <= head,
        head + params.len() <= i16::MAX,
        forall|i: int, j: int|
            0 <= i < j < params.len() ==> match (#[trigger] params[i], #[trigger] params[j]) {
                (Provider::Register(a), Provider::Register(b)) => head <= a.index && head
                    <= b.index ==> a.index <= b.index,
                _ => true,
            },
    ensures
        !has_cycle(param_copies(head, params)),
{
    let copies = param_copies(head, params);
    assert(is_ascending(copies, head)) by {
        assert forall|i: int, j: int, a: Register, b: Register|
            0 <= i < j < copies.len() && (#[trigger] copies[i].reads(a)) && (
            #[trigger] copies[j].reads(b)) && head <= a.index && head <= b.index implies a.index
            <= b.index by {
            assert(params[i] == TypedProvider::Register(a));
            assert(params[j] == TypedProvider::Register(b));
        }
    }
    lemma_ascending_copies_have_no_cycle(copies, head);
}

/// Whether one of the copies reads the register.
fn reads_register(copies: &Vec<RegisterCopy>, register: Register) -> (result: bool)
    ensures
        result == is_read(copies@, register),
{
    let mut j: usize = 0;
    while j < copies.len()
        invariant
            0 <= j <= copies.len(),
            forall|k: int| 0 <= k < j ==> !(#[trigger] copies@[k]).reads(register),
        decreases copies.len() - j,
    {
        if let Provider::Register(value) = copies[j].value {
            if value == register {
                assert(copies@[j as int].reads(register));
                return true;
            }
        }
        j = j + 1;
    }
    false
}

/// Returns the first copy that can be made before all others, or the number of
/// copies if there is none.
fn find_ready(copies: &Vec<RegisterCopy>) -> (ready: usize)
    ensures
        ready == first_ready(copies@, 0),
{
    let mut i: usize = 0;
    while i < copies.len()
        invariant
            0 <= i <= copies.len(),
            first_ready(copies@, i as nat) == first_ready(copies@, 0),
        decreases copies.len() - i,
    {
        let copy = copies[i];
        let is_noop = match copy.value {
            Provider::Register(value) => value == copy.result,
            Provider::Const(_) => false,
        };
        if is_noop || !reads_register(copies, copy.result) {
            return i;
        }
        i = i + 1;
    }
    i
}

/// Replaces the register `from` by `to` wherever it is read.
fn redirect(copies: &mut Vec<RegisterCopy>, from: Register, to: Register)
    ensures
        final(copies)@ == redirected(old(copies)@, from, to),
{
    let mut i: usize = 0;
    while i < copies.len()
        invariant
            0 <= i <= copies.len(),
            copies@.len() == old(copies)@.len(),
            forall|k: int| 0 <= k < i ==> copies@[k] == old(copies)@[k].redirected(from, to),
            forall|k: int| i <= k < copies@.len() ==> copies@[k] == old(copies)@[k],
        decreases copies.len() - i,
    {
        let copy = copies[i];
        if let Provider::Register(value) = copy.value {
            if value == from {
                copies.set(i, RegisterCopy { result: copy.result, value: Provider::Register(to) });
            }
        }
        i = i + 1;
    }
    assert(copies@ =~= redirected(old(copies)@, from, to));
}

/// Returns the copies of `params` into the registers `results`.
pub fn copies_of_params(results: RegisterSpanIter, params: &[TypedProvider]) -> (copies: Vec<
    RegisterCopy,
>)
    requires
        results.wf(),
        results@.len() == params@.len(),
    ensures
        copies@ == param_copies(results.next.index as int, params@),
{
    let mut copies: Vec<RegisterCopy> = Vec::new();
    let mut iter = results;
    let mut i: usize = 0;
    while i < params.len()
        invariant
            0 <= i <= params.len(),
            results.wf(),
            iter.wf(),
            results@.len() == params@.len(),
            iter@ == results@.skip(i as int),
            copies@ == param_copies(results.next.index as int, params@).take(i as int),
        decreases params.len() - i,
    {
        let result = match iter.next() {
            Some(result) => result,
            None => {
                return copies;
            },
        };
        assert(result == results@[i as int]);
        copies.push(RegisterCopy { result, value: params[i] });
        i = i + 1;
        assert(iter@ =~= results@.skip(i as int));
        assert(copies@ =~= param_copies(results.next.index as int, params@).take(i as int));
    }
    assert(copies@ =~= param_copies(results.next.index as int, params@));
    copies
}

/// Orders copies that are meant to happen all at once.
///
/// Also returns whether this needs the register `spare`.
pub fn order_copies(copies: Vec<RegisterCopy>, spare: Register) -> (result: (
    Vec<RegisterCopy>,
    bool,
))
    ensures
        result.0@ == ordered(copies@, spare),
        result.1 == has_cycle(copies@),
{
    let mut pending = copies;
    let mut done: Vec<RegisterCopy> = Vec::new();
    let mut cyclic = false;
    while pending.len() > 0
        invariant
            done@ + ordered(pending@, spare) == ordered(copies@, spare),
            has_cycle(copies@) == (cyclic || has_cycle(pending@)),
        decreases pending.len(),
    {
        let ghost before = done@;
        let ready = find_ready(&pending);
        proof {
            lemma_first_ready(pending@, 0);
        }
        if ready < pending.len() {
            let ghost rest = ordered(pending@.remove(ready as int), spare);
            let copy = pending.remove(ready);
            done.push(copy);
            assert(done@ + rest =~= before + (seq![copy] + rest));
        } else {
            let first = pending.remove(0);
            let saved = RegisterCopy { result: spare, value: Provider::Register(first.result) };
            redirect(&mut pending, first.result, spare);
            let ghost rest = ordered(pending@, spare);
            done.push(saved);
            done.push(first);
            cyclic = true;
            assert(done@ + rest =~= before + (seq![saved, first] + rest));
        }
    }
    assert(done@ + ordered(pending@, spare) =~= done@);
    (done, cyclic)
}

} // verus!
