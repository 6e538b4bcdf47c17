//! The component resolver: which component types a template implies, in priority order,
//! remembered per template.

use crate::seqs::lemma_position_skip;
use crate::seqs::position;
use std::collections::HashMap;
use vstd::prelude::*;

verus! {

broadcast use vstd::std_specs::hash::group_hash_axioms;

/// The component types that have a place in the priority order, first place first.
pub open spec fn priority_table() -> Seq<u32> {
    seq![1u32, 3, 40, 98, 7, 23, 110, 109, 106, 4, 17, 5, 9, 60, 48, 16, 6, 2, 44, 107]
}

/// The place of `component` in the priority order; every type without a place has
/// the same one, after all the others.
pub open spec fn priority(component: u32) -> int {
    position(priority_table(), component)
}

/// The order of a resolved sequence: by place in the priority order, and by number
/// among the types that have no place.
pub open spec fn ranks_before(a: u32, b: u32) -> bool {
    priority(a) < priority(b) || (priority(a) == priority(b) && a < b)
}

/// Each element ranks before every later one.
pub open spec fn strictly_ranked(components: Seq<u32>) -> bool {
    forall|i: int, j: int|
        0 <= i < j < components.len() ==> ranks_before(
            #[trigger] components[i],
            #[trigger] components[j],
        )
}

/// The component types that a raw row of type `component` brings with it.
pub open spec fn implied(component: u32) -> Seq<u32> {
    if component == 2 {
        seq![44u32]
    } else if component == 4 {
        seq![110u32, 109, 106]
    } else if component == 7 {
        seq![98u32]
    } else if component == 23 || component == 48 {
        seq![7u32]
    } else {
        Seq::empty()
    }
}

/// Whether `component` is one of the raw rows or is implied by one of them. A type
/// that is only implied implies nothing in turn.
pub open spec fn arises_from(component: u32, raw: Seq<u32>) -> bool {
    exists|i: int|
        0 <= i < raw.len() && (#[trigger] raw[i] == component || implied(raw[i]).contains(
            component,
        ))
}

/// Whether `out` is the resolved sequence of the raw rows `raw`: it holds exactly the
/// types that arise from them, each once, in rank order.
pub open spec fn is_resolution(out: Seq<u32>, raw: Seq<u32>) -> bool {
    &&& strictly_ranked(out)
    &&& forall|c: u32| out.contains(c) <==> arises_from(c, raw)
}

/// The place of `component` in the priority order.
pub fn priority_of(component: u32) -> (place: usize)
    ensures
        place == priority(component),
        place <= 20,
{
    let table: [u32; 20] = [1, 3, 40, 98, 7, 23, 110, 109, 106, 4, 17, 5, 9, 60, 48, 16, 6, 2, 44, 107];
    assert(table@ =~= priority_table());
    let mut i: usize = 0;
    while i < 20
        invariant
            i <= 20,
            table@ == priority_table(),
            forall|j: int| 0 <= j < i ==> table@[j] != component,
        decreases 20 - i,
    {
        if table[i] == component {
            proof {
                lemma_position_skip(table@, component, i as int);
            }
            return i;
        }
        i = i + 1;
    }
    proof {
        lemma_position_skip(table@, component, 20);
    }
    i
}

/// The component types that a raw row of type `component` brings with it.
pub fn implied_components(component: u32) -> (out: Vec<u32>)
    ensures
        out@ == implied(component),
{
    let mut out: Vec<u32> = Vec::new();
    if component == 2 {
        out.push(44);
    } else if component == 4 {
        out.push(110);
        out.push(109);
        out.push(106);
    } else if component == 7 {
        out.push(98);
    } else if component == 23 || component == 48 {
        out.push(7);
    }
    assert(out@ =~= implied(component));
    out
}

/// A sequence in rank order holds nothing twice.
pub proof fn lemma_ranked_has_no_duplicates(components: Seq<u32>)
    requires
        strictly_ranked(components),
    ensures
        components.no_duplicates(),
{
    assert forall|i: int, j: int|
        0 <= i < components.len() && 0 <= j < components.len() && i != j implies components[i]
        != components[j] by {
        if i < j {
            assert(ranks_before(components[i], components[j]));
        } else {
            assert(ranks_before(components[j], components[i]));
        }
    }
}

/// Two sequences in rank order that hold the same types are the same sequence.
pub proof fn lemma_ranked_is_unique(a: Seq<u32>, b: Seq<u32>)
    requires
        strictly_ranked(a),
        strictly_ranked(b),
        forall|c: u32| a.contains(c) <==> b.contains(c),
    ensures
        a == b,
    decreases a.len(),
{
    if a.len() == 0 {
        if b.len() > 0 {
            assert(b.contains(b[0]));
            assert(a.contains(b[0]));
        }
        assert(a =~= b);
    } else {
        assert(a.contains(a[0]));
        assert(b.contains(a[0]));
        let k = choose|k: int| 0 <= k < b.len() && b[k] == a[0];
        assert(b.contains(b[0]));
        assert(a.contains(b[0]));
        let m = choose|m: int| 0 <= m < a.len() && a[m] == b[0];
        if k > 0 {
            assert(ranks_before(b[0], b[k]));
            if m > 0 {
                assert(ranks_before(a[0], a[m]));
            }
        }
        assert(a[0] == b[0]);
        let ta = a.drop_first();
        let tb = b.drop_first();
        assert forall|i: int, j: int| 0 <= i < j < ta.len() implies ranks_before(
            #[trigger] ta[i],
            #[trigger] ta[j],
        ) by {
            assert(ranks_before(a[i + 1], a[j + 1]));
        }
        assert forall|i: int, j: int| 0 <= i < j < tb.len() implies ranks_before(
            #[trigger] tb[i],
            #[trigger] tb[j],
        ) by {
            assert(ranks_before(b[i + 1], b[j + 1]));
        }
        assert forall|c: u32| ta.contains(c) <==> tb.contains(c) by {
            if ta.contains(c) {
                let i = choose|i: int| 0 <= i < ta.len() && ta[i] == c;
                assert(a[i + 1] == c);
                assert(ranks_before(a[0], a[i + 1]));
                assert(a.contains(c));
                let j = choose|j: int| 0 <= j < b.len() && b[j] == c;
                assert(j > 0);
                assert(tb[j - 1] == c);
            }
            if tb.contains(c) {
                let i = choose|i: int| 0 <= i < tb.len() && tb[i] == c;
                assert(b[i + 1] == c);
                assert(ranks_before(b[0], b[i + 1]));
                assert(b.contains(c));
                let j = choose|j: int| 0 <= j < a.len() && a[j] == c;
                assert(j > 0);
                assert(ta[j - 1] == c);
            }
        }
        lemma_ranked_is_unique(ta, tb);
        assert(a =~= seq![a[0]] + ta);
        assert(b =~= seq![b[0]] + tb);
    }
}

/// The raw rows `raw` have one resolved sequence and no other.
pub proof fn lemma_resolution_is_unique(a: Seq<u32>, b: Seq<u32>, raw: Seq<u32>)
    requires
        is_resolution(a, raw),
        is_resolution(b, raw),
    ensures
        a == b,
{
    lemma_ranked_is_unique(a, b);
}

/// Where `component` stands in `ranked`, or where it would have to be put.
fn slot_of(ranked: &Vec<u32>, component: u32) -> (slot: (usize, bool))
    requires
        strictly_ranked(ranked@),
    ensures
        slot.0 <= ranked@.len(),
        forall|j: int| 0 <= j < slot.0 ==> ranks_before(#[trigger] ranked@[j], component),
        slot.1 ==> slot.0 < ranked@.len() && ranked@[slot.0 as int] == component,
        !slot.1 ==> forall|j: int|
            slot.0 <= j < ranked@.len() ==> ranks_before(component, #[trigger] ranked@[j]),
{
    let place = priority_of(component);
    let mut i: usize = 0;
    while i < ranked.len()
        invariant
            i <= ranked@.len(),
            place == priority(component),
            strictly_ranked(ranked@),
            forall|j: int| 0 <= j < i ==> ranks_before(#[trigger] ranked@[j], component),
        decreases ranked@.len() - i,
    {
        let current = ranked[i];
        if current == component {
            return (i, true);
        }
        let other = priority_of(current);
        if place < other || (place == other && component < current) {
            assert forall|j: int| i <= j < ranked@.len() implies ranks_before(
                component,
                #[trigger] ranked@[j],
            ) by {
                if i < j {
                    assert(ranks_before(ranked@[i as int], ranked@[j]));
                }
            }
            return (i, false);
        }
        i = i + 1;
    }
    (i, false)
}

/// Puts `component` at its rank in `ranked`, unless it is there already.
pub fn insert_ranked(ranked: &mut Vec<u32>, component: u32)
    requires
        strictly_ranked(old(ranked)@),
    ensures
        strictly_ranked(final(ranked)@),
        forall|c: u32| #[trigger]
            final(ranked)@.contains(c) <==> old(ranked)@.contains(c) || c == component,
{
    let slot = slot_of(ranked, component);
    let ghost before = ranked@;
    if slot.1 {
        assert(before.contains(component));
    } else {
        let at = slot.0;
        ranked.insert(at, component);
        proof {
            let after = ranked@;
            assert(after == before.insert(at as int, component));
            assert forall|i: int, j: int| 0 <= i < j < after.len() implies ranks_before(
                #[trigger] after[i],
                #[trigger] after[j],
            ) by {
                if j < at {
                    assert(ranks_before(before[i], before[j]));
                } else if j == at {
                    assert(ranks_before(before[i], component));
                } else if i < at {
                    assert(ranks_before(before[i], before[j - 1]));
                } else if i == at {
                    assert(ranks_before(component, before[j - 1]));
                } else {
                    assert(ranks_before(before[i - 1], before[j - 1]));
                }
            }
            assert forall|c: u32| after.contains(c) <==> before.contains(c) || c
                == component by {
                if after.contains(c) {
                    let i = choose|i: int| 0 <= i < after.len() && after[i] == c;
                    if i < at {
                        assert(before[i] == c);
                    } else if i > at {
                        assert(before[i - 1] == c);
                    }
                }
                if before.contains(c) {
                    let i = choose|i: int| 0 <= i < before.len() && before[i] == c;
                    if i < at {
                        assert(after[i] == c);
                    } else {
                        assert(after[i + 1] == c);
                    }
                }
                if c == component {
                    assert(after[at as int] == c);
                }
            }
        }
    }
}

proof fn lemma_arises_step(component: u32, raw: Seq<u32>, upto: int)
    requires
        0 <= upto < raw.len(),
    ensures
        arises_from(component, raw.subrange(0, upto + 1)) <==> arises_from(
            component,
            raw.subrange(0, upto),
        ) || raw[upto] == component || implied(raw[upto]).contains(component),
{
    let shorter = raw.subrange(0, upto);
    let longer = raw.subrange(0, upto + 1);
    if arises_from(component, longer) {
        let i = choose|i: int|
            0 <= i < longer.len() && (#[trigger] longer[i] == component || implied(
                longer[i],
            ).contains(component));
        if i < upto {
            assert(shorter[i] == longer[i]);
        }
    }
    if arises_from(component, shorter) {
        let i = choose|i: int|
            0 <= i < shorter.len() && (#[trigger] shorter[i] == component || implied(
                shorter[i],
            ).contains(component));
        assert(longer[i] == shorter[i]);
    }
    if raw[upto] == component || implied(raw[upto]).contains(component) {
        assert(longer[upto] == raw[upto]);
    }
}

/// The resolved sequence of the raw rows `raw`: the rows and what each of them implies,
/// each type once, in rank order.
pub fn order_components(raw: &Vec<u32>) -> (out: Vec<u32>)
    ensures
        is_resolution(out@, raw@),
        out@.no_duplicates(),
{
    let mut out: Vec<u32> = Vec::new();
    let mut i: usize = 0;
    while i < raw.len()
        invariant
            i <= raw@.len(),
            strictly_ranked(out@),
            forall|c: u32| #[trigger]
                out@.contains(c) <==> arises_from(c, raw@.subrange(0, i as int)),
        decreases raw@.len() - i,
    {
        let row = raw[i];
        let extra = implied_components(row);
        let ghost start = out@;
        insert_ranked(&mut out, row);
        let mut k: usize = 0;
        while k < extra.len()
            invariant
                k <= extra@.len(),
                strictly_ranked(out@),
                forall|c: u32| #[trigger]
                    out@.contains(c) <==> start.contains(c) || c == row || extra@.subrange(
                        0,
                        k as int,
                    ).contains(c),
            decreases extra@.len() - k,
        {
            insert_ranked(&mut out, extra[k]);
            proof {
                let shorter = extra@.subrange(0, k as int);
                let longer = extra@.subrange(0, k + 1);
                assert forall|c: u32| longer.contains(c) <==> shorter.contains(c) || c
                    == extra@[k as int] by {
                    if longer.contains(c) {
                        let j = choose|j: int| 0 <= j < longer.len() && longer[j] == c;
                        if j < k {
                            assert(shorter[j] == c);
                        }
                    }
                    if shorter.contains(c) {
                        let j = choose|j: int| 0 <= j < shorter.len() && shorter[j] == c;
                        assert(longer[j] == c);
                    }
                    if c == extra@[k as int] {
                        assert(longer[k as int] == c);
                    }
                }
            }
            k = k + 1;
        }
        proof {
            assert(extra@.subrange(0, k as int) =~= implied(row));
            assert forall|c: u32| out@.contains(c) <==> arises_from(
                c,
                raw@.subrange(0, i + 1),
            ) by {
                lemma_arises_step(c, raw@, i as int);
            }
        }
        i = i + 1;
    }
    proof {
        assert(raw@.subrange(0, i as int) =~= raw@);
        lemma_ranked_has_no_duplicates(out@);
    }
    out
}

fn copy_of(components: &Vec<u32>) -> (out: Vec<u32>)
    ensures
        out@ == components@,
{
    let mut out: Vec<u32> = Vec::new();
    let mut i: usize = 0;
    while i < components.len()
        invariant
            i <= components@.len(),
            out@ == components@.subrange(0, i as int),
        decreases components@.len() - i,
    {
        out.push(components[i]);
        i = i + 1;
        assert(out@ =~= components@.subrange(0, i as int));
    }
    assert(components@.subrange(0, i as int) =~= components@);
    out
}

/// How resolving template `id` from the raw rows `raw` takes the remembered entries
/// from `before` to `after` and what it returns: the remembered sequence where there
/// is one, with nothing changed, and otherwise the resolved sequence of `raw`, which
/// is then remembered.
pub open spec fn resolves_to(
    before: Map<u32, Seq<u32>>,
    id: u32,
    raw: Seq<u32>,
    out: Seq<u32>,
    after: Map<u32, Seq<u32>>,
) -> bool {
    if before.contains_key(id) {
        out == before[id] && after == before
    } else {
        is_resolution(out, raw) && after == before.insert(id, out)
    }
}

/// Remembers the resolved sequence of each template that was resolved. Its view maps
/// each such template to its sequence; an entry, once made, is never changed or removed.
pub struct ComponentResolver {
    cache: HashMap<u32, Vec<u32>>,
}

impl View for ComponentResolver {
    type V = Map<u32, Seq<u32>>;

    closed spec fn view(&self) -> Map<u32, Seq<u32>> {
        Map::new(|id: u32| self.cache@.contains_key(id), |id: u32| self.cache@[id]@)
    }
}

impl ComponentResolver {
    /// Every remembered sequence is in rank order, and so holds nothing twice.
    pub open spec fn well_formed(&self) -> bool {
        forall|id: u32| #[trigger] self@.contains_key(id) ==> strictly_ranked(self@[id])
    }

    /// A resolver that remembers nothing yet.
    pub fn new() -> (resolver: ComponentResolver)
        ensures
            resolver.well_formed(),
            resolver@ == Map::<u32, Seq<u32>>::empty(),
    {
        let resolver = ComponentResolver { cache: HashMap::new() };
        assert(resolver@ =~= Map::<u32, Seq<u32>>::empty());
        resolver
    }

    /// The remembered sequence of template `id`, if it was resolved before.
    pub fn lookup(&self, id: u32) -> (found: Option<Vec<u32>>)
        requires
            self.well_formed(),
        ensures
            self@.contains_key(id) ==> found is Some && found->Some_0@ == self@[id],
            !self@.contains_key(id) ==> found is None,
            found is Some ==> strictly_ranked(found->Some_0@) && found->Some_0@.no_duplicates(),
    {
        match self.cache.get(&id) {
            Some(components) => {
                proof {
                    assert(self@.contains_key(id) && self@[id] == components@);
                    lemma_ranked_has_no_duplicates(components@);
                }
                Some(copy_of(components))
            },
            None => None,
        }
    }

    /// Resolves template `id` from its raw rows `raw` and remembers the result, unless
    /// the template was resolved before: then the remembered sequence is returned and
    /// `raw` is not looked at.
    pub fn store(&mut self, id: u32, raw: &Vec<u32>) -> (out: Vec<u32>)
        requires
            old(self).well_formed(),
        ensures
            final(self).well_formed(),
            resolves_to(old(self)@, id, raw@, out@, final(self)@),
            out@.no_duplicates(),
    {
        match self.lookup(id) {
            Some(components) => components,
            None => {
                let out = order_components(raw);
                let kept = copy_of(&out);
                self.cache.insert(id, kept);
                assert(self@ =~= old(self)@.insert(id, out@));
                out
            },
        }
    }

    /// The resolved sequence of template `id`. The row source `rows` is asked for the
    /// raw rows only if the template was not resolved before; the result is remembered.
    pub fn resolve<F: FnOnce(u32) -> Vec<u32>>(&mut self, id: u32, rows: F) -> (out: Vec<u32>)
        requires
            old(self).well_formed(),
            !old(self)@.contains_key(id) ==> rows.requires((id,)),
        ensures
            final(self).well_formed(),
            old(self)@.contains_key(id) ==> out@ == old(self)@[id] && final(self)@ == old(self)@,
            !old(self)@.contains_key(id) ==> exists|raw: Vec<u32>| #[trigger]
                rows.ensures((id,), raw) && resolves_to(
                    old(self)@,
                    id,
                    raw@,
                    out@,
                    final(self)@,
                ),
            out@.no_duplicates(),
    {
        match self.lookup(id) {
            Some(components) => components,
            None => {
                let raw = rows(id);
                self.store(id, &raw)
            },
        }
    }
}

/// Resolving a template a second time returns the sequence of the first time and
/// changes nothing, whatever raw rows are offered for it then.
pub proof fn lemma_resolve_twice(
    before: Map<u32, Seq<u32>>,
    id: u32,
    first_raw: Seq<u32>,
    first: Seq<u32>,
    between: Map<u32, Seq<u32>>,
    second_raw: Seq<u32>,
    second: Seq<u32>,
    after: Map<u32, Seq<u32>>,
)
    requires
        resolves_to(before, id, first_raw, first, between),
        resolves_to(between, id, second_raw, second, after),
    ensures
        between.contains_key(id),
        second == first,
        after == between,
{
}

/// A template that was resolved keeps its sequence when another template is resolved.
pub proof fn lemma_entries_are_kept(
    before: Map<u32, Seq<u32>>,
    id: u32,
    other: u32,
    raw: Seq<u32>,
    out: Seq<u32>,
    after: Map<u32, Seq<u32>>,
)
    requires
        before.contains_key(id),
        resolves_to(before, other, raw, out, after),
    ensures
        after.contains_key(id),
        after[id] == before[id],
{
}

/// Raw rows that hold the same types, in whatever order and however often, have the
/// same resolved sequence.
pub proof fn lemma_resolution_ignores_order(
    first_raw: Seq<u32>,
    second_raw: Seq<u32>,
    first: Seq<u32>,
    second: Seq<u32>,
)
    requires
        forall|c: u32| first_raw.contains(c) <==> second_raw.contains(c),
        is_resolution(first, first_raw),
        is_resolution(second, second_raw),
    ensures
        first == second,
{
    assert forall|c: u32| arises_from(c, first_raw) <==> arises_from(c, second_raw) by {
        if arises_from(c, first_raw) {
            let i = choose|i: int|
                0 <= i < first_raw.len() && (#[trigger] first_raw[i] == c || implied(
                    first_raw[i],
                ).contains(c));
            assert(first_raw.contains(first_raw[i]));
            let j = choose|j: int| 0 <= j < second_raw.len() && second_raw[j] == first_raw[i];
            assert(second_raw[j] == c || implied(second_raw[j]).contains(c));
        }
        if arises_from(c, second_raw) {
            let i = choose|i: int|
                0 <= i < second_raw.len() && (#[trigger] second_raw[i] == c || implied(
                    second_raw[i],
                ).contains(c));
            assert(second_raw.contains(second_raw[i]));
            let j = choose|j: int| 0 <= j < first_raw.len() && first_raw[j] == second_raw[i];
            assert(first_raw[j] == c || implied(first_raw[j]).contains(c));
        }
    }
    lemma_ranked_is_unique(first, second);
}

} // verus!
