//! The container registry: reconciliation of runtime snapshots into the
//! persistent item list, the multi-key sort engine with tri-state
//! cycling, selection management, and per-item stat and log updates.

use crate::app_data::container_state::{
    item_wf, spec_last_or_zero, spec_state_order, ContainerId, ContainerItem, ItemV, State,
    StatefulList,
};
use crate::app_data::CliArgs;
use crate::text::{lemma_str_le_total, lemma_str_le_trans, str_le, str_le_exec};
use vstd::multiset::Multiset;
use vstd::prelude::*;
use vstd::seq_lib::group_seq_properties;

verus! {

/// Direction of an active sort.
#[derive(Debug, Clone, Copy, PartialEq, Eq, Structural)]
pub enum SortedOrder {
    Asc,
    Desc,
}

/// Column of the containers panel; each can be sorted on.
#[derive(Debug, Clone, Copy, PartialEq, Eq, Structural)]
pub enum Header {
    State,
    Status,
    Cpu,
    Memory,
    Id,
    Name,
    Image,
    Rx,
    Tx,
}

/// The text shown for each column heading.
pub open spec fn spec_header_display(h: Header) -> Seq<char> {
    match h {
        Header::State => "state"@,
        Header::Status => "status"@,
        Header::Cpu => "cpu"@,
        Header::Memory => "memory/limit"@,
        Header::Id => "id"@,
        Header::Name => "name"@,
        Header::Image => "image"@,
        Header::Rx => "\u{2193} rx"@,
        Header::Tx => "\u{2191} tx"@,
    }
}

impl Header {
    /// The text shown for this column heading.
    pub fn display(self) -> (r: String)
        ensures
            r@ == spec_header_display(self),
    {
        let lit: &str = match self {
            Header::State => "state",
            Header::Status => "status",
            Header::Cpu => "cpu",
            Header::Memory => "memory/limit",
            Header::Id => "id",
            Header::Name => "name",
            Header::Image => "image",
            Header::Rx => "\u{2193} rx",
            Header::Tx => "\u{2191} tx",
        };
        lit.to_owned()
    }
}

/// The sort key order between two items under the given sort setting;
/// with no setting the items order by creation time. This is the
/// "at-most" relation of the comparator the panel sorts with; an
/// ascending state sort ranks the highest state precedence first.
pub open spec fn item_le(sb: Option<(Header, SortedOrder)>, a: ItemV, b: ItemV) -> bool {
    match sb {
        None => a.created <= b.created,
        Some((h, ord)) => {
            let asc = ord == SortedOrder::Asc;
            match h {
                Header::State => if asc {
                    spec_state_order(b.state) <= spec_state_order(a.state)
                } else {
                    spec_state_order(a.state) <= spec_state_order(b.state)
                },
                Header::Status => if asc {
                    str_le(a.status, b.status)
                } else {
                    str_le(b.status, a.status)
                },
                Header::Cpu => if asc {
                    spec_last_or_zero(a.cpu) <= spec_last_or_zero(b.cpu)
                } else {
                    spec_last_or_zero(b.cpu) <= spec_last_or_zero(a.cpu)
                },
                Header::Memory => if asc {
                    spec_last_or_zero(a.mem) <= spec_last_or_zero(b.mem)
                } else {
                    spec_last_or_zero(b.mem) <= spec_last_or_zero(a.mem)
                },
                Header::Id => if asc {
                    str_le(a.id, b.id)
                } else {
                    str_le(b.id, a.id)
                },
                Header::Name => if asc {
                    str_le(a.name, b.name)
                } else {
                    str_le(b.name, a.name)
                },
                Header::Image => if asc {
                    str_le(a.image, b.image)
                } else {
                    str_le(b.image, a.image)
                },
                Header::Rx => if asc {
                    a.rx <= b.rx
                } else {
                    b.rx <= a.rx
                },
                Header::Tx => if asc {
                    a.tx <= b.tx
                } else {
                    b.tx <= a.tx
                },
            }
        },
    }
}

/// `item_le` is total for every sort setting.
pub proof fn lemma_item_le_total(sb: Option<(Header, SortedOrder)>, a: ItemV, b: ItemV)
    ensures
        item_le(sb, a, b) || item_le(sb, b, a),
{
    lemma_str_le_total(a.status, b.status);
    lemma_str_le_total(a.id, b.id);
    lemma_str_le_total(a.name, b.name);
    lemma_str_le_total(a.image, b.image);
}

/// `item_le` is transitive for every sort setting.
pub proof fn lemma_item_le_trans(sb: Option<(Header, SortedOrder)>, a: ItemV, b: ItemV, c: ItemV)
    requires
        item_le(sb, a, b),
        item_le(sb, b, c),
    ensures
        item_le(sb, a, c),
{
    if let Some((h, ord)) = sb {
        let asc = ord == SortedOrder::Asc;
        match h {
            Header::Status => if asc {
                lemma_str_le_trans(a.status, b.status, c.status);
            } else {
                lemma_str_le_trans(c.status, b.status, a.status);
            },
            Header::Id => if asc {
                lemma_str_le_trans(a.id, b.id, c.id);
            } else {
                lemma_str_le_trans(c.id, b.id, a.id);
            },
            Header::Name => if asc {
                lemma_str_le_trans(a.name, b.name, c.name);
            } else {
                lemma_str_le_trans(c.name, b.name, a.name);
            },
            Header::Image => if asc {
                lemma_str_le_trans(a.image, b.image, c.image);
            } else {
                lemma_str_le_trans(c.image, b.image, a.image);
            },
            _ => {},
        }
    }
}

/// Insert `x` into `s` before the first element it does not come after,
/// so that equal keys keep their arrival order.
pub open spec fn spec_insert_item(
    sb: Option<(Header, SortedOrder)>,
    s: Seq<ItemV>,
    x: ItemV,
) -> Seq<ItemV>
    decreases s.len(),
{
    if s.len() == 0 {
        seq![x]
    } else if item_le(sb, s[0], x) {
        seq![s[0]].add(spec_insert_item(sb, s.drop_first(), x))
    } else {
        seq![x].add(s)
    }
}

/// Stable insertion sort of the items under the given sort setting; the
/// exact sequence every registry sort produces.
pub open spec fn spec_sort_items(sb: Option<(Header, SortedOrder)>, s: Seq<ItemV>) -> Seq<ItemV>
    decreases s.len(),
{
    if s.len() == 0 {
        s
    } else {
        spec_insert_item(sb, spec_sort_items(sb, s.drop_last()), s.last())
    }
}

pub proof fn lemma_insert_item_len(sb: Option<(Header, SortedOrder)>, s: Seq<ItemV>, x: ItemV)
    ensures
        spec_insert_item(sb, s, x).len() == s.len() + 1,
    decreases s.len(),
{
    if s.len() > 0 && item_le(sb, s[0], x) {
        lemma_insert_item_len(sb, s.drop_first(), x);
    }
}

pub proof fn lemma_sort_items_len(sb: Option<(Header, SortedOrder)>, s: Seq<ItemV>)
    ensures
        spec_sort_items(sb, s).len() == s.len(),
    decreases s.len(),
{
    if s.len() > 0 {
        lemma_sort_items_len(sb, s.drop_last());
        lemma_insert_item_len(sb, spec_sort_items(sb, s.drop_last()), s.last());
    }
}

pub proof fn lemma_insert_item_multiset(sb: Option<(Header, SortedOrder)>, s: Seq<ItemV>, x: ItemV)
    ensures
        spec_insert_item(sb, s, x).to_multiset() == s.to_multiset().insert(x),
    decreases s.len(),
{
    broadcast use vstd::seq_lib::group_to_multiset_ensures;

    if s.len() == 0 {
        assert(spec_insert_item(sb, s, x) =~= Seq::<ItemV>::empty().push(x));
        assert(Seq::<ItemV>::empty().push(x).to_multiset() =~= s.to_multiset().insert(x));
    } else if item_le(sb, s[0], x) {
        lemma_insert_item_multiset(sb, s.drop_first(), x);
        let rest = spec_insert_item(sb, s.drop_first(), x);
        assert(seq![s[0]].add(rest) =~= rest.insert(0, s[0]));
        vstd::seq_lib::lemma_multiset_commutative(seq![s[0]], rest);
        assert(seq![s[0]].add(rest).to_multiset() =~= rest.to_multiset().insert(s[0]));
        assert(s =~= s.drop_first().insert(0, s[0]));
        vstd::seq_lib::lemma_multiset_commutative(seq![s[0]], s.drop_first());
        assert(seq![s[0]].add(s.drop_first()) =~= s);
        assert(s.to_multiset() =~= s.drop_first().to_multiset().insert(s[0]));
        assert(rest.to_multiset().insert(s[0]) =~= s.to_multiset().insert(x));
    } else {
        vstd::seq_lib::lemma_multiset_commutative(seq![x], s);
        assert(seq![x].to_multiset() =~= Multiset::<ItemV>::empty().insert(x));
        assert(seq![x].add(s).to_multiset() =~= s.to_multiset().insert(x));
    }
}

/// Sorting permutes the items: the multiset of items is unchanged.
pub proof fn lemma_sort_items_multiset(sb: Option<(Header, SortedOrder)>, s: Seq<ItemV>)
    ensures
        spec_sort_items(sb, s).to_multiset() == s.to_multiset(),
    decreases s.len(),
{
    broadcast use vstd::seq_lib::group_to_multiset_ensures;

    if s.len() > 0 {
        lemma_sort_items_multiset(sb, s.drop_last());
        lemma_insert_item_multiset(sb, spec_sort_items(sb, s.drop_last()), s.last());
        assert(s.drop_last().push(s.last()) =~= s);
    }
}

/// Every item of the sorted sequence is an item of the original, and
/// conversely.
pub proof fn lemma_sort_items_contains(sb: Option<(Header, SortedOrder)>, s: Seq<ItemV>, x: ItemV)
    ensures
        spec_sort_items(sb, s).contains(x) == s.contains(x),
{
    broadcast use vstd::seq_lib::group_to_multiset_ensures;

    lemma_sort_items_multiset(sb, s);
    assert(spec_sort_items(sb, s).contains(x) <==> spec_sort_items(sb, s).to_multiset().count(x)
        > 0);
    assert(s.contains(x) <==> s.to_multiset().count(x) > 0);
}

/// The sorted sequence is ordered by `item_le`.
pub proof fn lemma_sort_items_sorted(sb: Option<(Header, SortedOrder)>, s: Seq<ItemV>)
    ensures
        forall|i: int, j: int|
            0 <= i < j < spec_sort_items(sb, s).len() ==> item_le(
                sb,
                spec_sort_items(sb, s)[i],
                spec_sort_items(sb, s)[j],
            ),
    decreases s.len(),
{
    if s.len() > 0 {
        lemma_sort_items_sorted(sb, s.drop_last());
        lemma_insert_item_sorted(sb, spec_sort_items(sb, s.drop_last()), s.last());
    }
}

proof fn lemma_insert_item_sorted(sb: Option<(Header, SortedOrder)>, s: Seq<ItemV>, x: ItemV)
    requires
        forall|i: int, j: int| 0 <= i < j < s.len() ==> item_le(sb, s[i], s[j]),
    ensures
        forall|i: int, j: int|
            0 <= i < j < spec_insert_item(sb, s, x).len() ==> item_le(
                sb,
                spec_insert_item(sb, s, x)[i],
                spec_insert_item(sb, s, x)[j],
            ),
    decreases s.len(),
{
    broadcast use vstd::seq_lib::group_to_multiset_ensures;

    let out = spec_insert_item(sb, s, x);
    if s.len() == 0 {
    } else if item_le(sb, s[0], x) {
        let rest = spec_insert_item(sb, s.drop_first(), x);
        assert(forall|i: int, j: int|
            0 <= i < j < s.drop_first().len() ==> item_le(sb, s.drop_first()[i], s.drop_first()[j]));
        lemma_insert_item_sorted(sb, s.drop_first(), x);
        lemma_insert_item_multiset(sb, s.drop_first(), x);
        assert forall|k: int| 0 <= k < rest.len() implies item_le(sb, s[0], rest[k]) by {
            assert(rest.contains(rest[k]));
            assert(rest.to_multiset().count(rest[k]) > 0);
            if rest[k] == x {
                assert(item_le(sb, s[0], x));
            } else {
                assert(s.drop_first().to_multiset().count(rest[k]) > 0);
                assert(s.drop_first().contains(rest[k]));
                let m = choose|m: int|
                    0 <= m < s.drop_first().len() && s.drop_first()[m] == rest[k];
                assert(s[m + 1] == rest[k]);
                assert(item_le(sb, s[0], s[m + 1]));
            }
        }
        assert(out == seq![s[0]].add(rest));
        assert forall|i: int, j: int| 0 <= i < j < out.len() implies item_le(
            sb,
            out[i],
            out[j],
        ) by {
            if i == 0 {
                assert(out[j] == rest[j - 1]);
            } else {
                assert(out[i] == rest[i - 1] && out[j] == rest[j - 1]);
            }
        }
    } else {
        lemma_item_le_total(sb, s[0], x);
        assert(item_le(sb, x, s[0]));
        assert forall|k: int| 0 <= k < s.len() implies item_le(sb, x, s[k]) by {
            if k > 0 {
                lemma_item_le_trans(sb, x, s[0], s[k]);
            }
        }
        assert forall|i: int, j: int| 0 <= i < j < out.len() implies item_le(
            sb,
            out[i],
            out[j],
        ) by {
            if i > 0 {
                assert(out[i] == s[i - 1] && out[j] == s[j - 1]);
            } else {
                assert(out[j] == s[j - 1]);
            }
        }
    }
}

/// Inserting into an already sorted sequence whose elements all come no
/// later than `x` appends `x` at the end.
proof fn lemma_insert_item_at_end(sb: Option<(Header, SortedOrder)>, s: Seq<ItemV>, x: ItemV)
    requires
        forall|k: int| 0 <= k < s.len() ==> item_le(sb, s[k], x),
    ensures
        spec_insert_item(sb, s, x) == s.push(x),
    decreases s.len(),
{
    if s.len() == 0 {
        assert(spec_insert_item(sb, s, x) =~= s.push(x));
    } else {
        lemma_insert_item_at_end(sb, s.drop_first(), x);
        assert(seq![s[0]].add(s.drop_first().push(x)) =~= s.push(x));
    }
}

/// Sorting an already sorted sequence leaves it unchanged; with the
/// first lemmas this makes every registry sort idempotent.
pub proof fn lemma_sort_items_of_sorted(sb: Option<(Header, SortedOrder)>, s: Seq<ItemV>)
    requires
        forall|i: int, j: int| 0 <= i < j < s.len() ==> item_le(sb, s[i], s[j]),
    ensures
        spec_sort_items(sb, s) == s,
    decreases s.len(),
{
    if s.len() > 0 {
        let front = s.drop_last();
        assert(forall|i: int, j: int| 0 <= i < j < front.len() ==> item_le(sb, front[i], front[j]));
        lemma_sort_items_of_sorted(sb, front);
        assert forall|k: int| 0 <= k < front.len() implies item_le(sb, front[k], s.last()) by {
            assert(item_le(sb, s[k], s[s.len() - 1]));
        }
        lemma_insert_item_at_end(sb, front, s.last());
        assert(front.push(s.last()) =~= s);
    }
}

/// Where to insert `x` so the result is `spec_insert_item`: splitting at
/// the first position whose element does not come before `x`.
proof fn lemma_insert_item_split(sb: Option<(Header, SortedOrder)>, s: Seq<ItemV>, x: ItemV, j: int)
    requires
        0 <= j <= s.len(),
        forall|k: int| 0 <= k < j ==> item_le(sb, s[k], x),
        j == s.len() || !item_le(sb, s[j], x),
    ensures
        spec_insert_item(sb, s, x) == s.subrange(0, j).add(seq![x]).add(
            s.subrange(j, s.len() as int),
        ),
    decreases j,
{
    if s.len() == 0 {
        assert(spec_insert_item(sb, s, x) =~= s.subrange(0, j).add(seq![x]).add(
            s.subrange(j, s.len() as int),
        ));
    } else if j == 0 {
        assert(!item_le(sb, s[0], x));
        assert(seq![x].add(s) =~= s.subrange(0, 0).add(seq![x]).add(s.subrange(0, s.len() as int)));
    } else {
        let t = s.drop_first();
        lemma_insert_item_split(sb, t, x, j - 1);
        assert(seq![s[0]].add(
            t.subrange(0, j - 1).add(seq![x]).add(t.subrange(j - 1, t.len() as int)),
        ) =~= s.subrange(0, j).add(seq![x]).add(s.subrange(j, s.len() as int)));
    }
}

/// The view of a sequence of container items.
pub open spec fn items_view(s: Seq<ContainerItem>) -> Seq<ItemV> {
    s.map_values(|c: ContainerItem| c@)
}

/// First index holding the given identifier.
pub open spec fn spec_find_id(s: Seq<ItemV>, id: Seq<char>) -> Option<int>
    decreases s.len(),
{
    if s.len() == 0 {
        None
    } else if s[0].id == id {
        Some(0)
    } else {
        match spec_find_id(s.drop_first(), id) {
            Some(j) => Some(j + 1),
            None => None,
        }
    }
}

/// What `spec_find_id` finds: a valid index holding the identifier, the
/// earliest one; `None` exactly when no item holds it.
pub proof fn lemma_find_id_props(s: Seq<ItemV>, id: Seq<char>)
    ensures
        match spec_find_id(s, id) {
            Some(j) => 0 <= j < s.len() && s[j].id == id && forall|k: int|
                0 <= k < j ==> s[k].id != id,
            None => forall|k: int| 0 <= k < s.len() ==> s[k].id != id,
        },
    decreases s.len(),
{
    if s.len() > 0 && s[0].id != id {
        let rest = s.drop_first();
        lemma_find_id_props(rest, id);
        match spec_find_id(rest, id) {
            Some(j) => {
                assert(rest[j] == s[j + 1]);
                assert forall|k: int| 0 <= k < j + 1 implies s[k].id != id by {
                    if k > 0 {
                        assert(rest[k - 1] == s[k]);
                    }
                }
            },
            None => {
                assert forall|k: int| 0 <= k < s.len() implies s[k].id != id by {
                    if k > 0 {
                        assert(rest[k - 1] == s[k]);
                    }
                }
            },
        }
    }
}

/// No two items share an identifier.
pub open spec fn ids_unique(s: Seq<ItemV>) -> bool {
    forall|i: int, j: int| 0 <= i < j < s.len() ==> s[i].id != s[j].id
}

/// The observable state of the registry: the items in panel order, the
/// selection cursor, and the active sort.
pub struct RegV {
    pub items: Seq<ItemV>,
    pub sel: Option<usize>,
    pub sorted: Option<(Header, SortedOrder)>,
    pub args: CliArgs,
}

/// Registry well-formedness: a set selection is a valid index, every
/// item is well formed, and identifiers are unique.
pub open spec fn reg_wf(r: RegV) -> bool {
    &&& (r.sel matches Some(s) ==> (s as int) < r.items.len())
    &&& (forall|i: int| 0 <= i < r.items.len() ==> item_wf(#[trigger] r.items[i]))
    &&& ids_unique(r.items)
}

/// The container registry: owns the item list, reconciles runtime
/// snapshots into it, and keeps selection and sort order stable across
/// refreshes.
#[derive(Debug)]
pub struct ContainerData {
    containers: StatefulList<ContainerItem>,
    sorted_by: Option<(Header, SortedOrder)>,
    pub args: CliArgs,
}

impl View for ContainerData {
    type V = RegV;

    closed spec fn view(&self) -> RegV {
        RegV {
            items: items_view(self.containers.items@),
            sel: self.containers.state.selected,
            sorted: self.sorted_by,
            args: self.args,
        }
    }
}

/// The tri-state sort cycle: a fresh header starts ascending, repeating
/// a header goes ascending to descending to no sort.
pub open spec fn spec_sort_cycle(
    cur: Option<(Header, SortedOrder)>,
    h: Header,
) -> Option<(Header, SortedOrder)> {
    match cur {
        Some((ch, ord)) => if ch == h {
            match ord {
                SortedOrder::Asc => Some((h, SortedOrder::Desc)),
                SortedOrder::Desc => None,
            }
        } else {
            Some((h, SortedOrder::Asc))
        },
        None => Some((h, SortedOrder::Asc)),
    }
}

/// The selection after a sort: the previously selected identifier stays
/// selected at its new index; with no previous selection none is made.
pub open spec fn spec_rebind_sel(
    items: Seq<ItemV>,
    prev: Option<Seq<char>>,
) -> Option<usize> {
    match prev {
        None => None,
        Some(id) => match spec_find_id(items, id) {
            Some(j) => Some(j as usize),
            None => None,
        },
    }
}

/// The identifier the selection points at.
pub open spec fn spec_sel_id(r: RegV) -> Option<Seq<char>> {
    match r.sel {
        Some(s) => if (s as int) < r.items.len() {
            Some(r.items[s as int].id)
        } else {
            None
        },
        None => None,
    }
}

/// The registry state a sort request leaves behind: the new setting, the
/// items sorted by it, and the selection rebound by identity.
pub open spec fn spec_set_sorted(r: RegV, x: Option<(Header, SortedOrder)>) -> RegV {
    let items = spec_sort_items(x, r.items);
    RegV { items, sel: spec_rebind_sel(items, spec_sel_id(r)), sorted: x, args: r.args }
}

impl ContainerData {
    /// Well-formedness of the registry.
    pub open spec fn wf(&self) -> bool {
        reg_wf(self@)
    }

    /// An empty registry with no active sort.
    pub fn new(args: CliArgs) -> (r: Self)
        ensures
            r@.items == Seq::<ItemV>::empty(),
            r@.sel is None,
            r@.sorted is None,
            r@.args == args,
            r.wf(),
    {
        let r = ContainerData {
            containers: StatefulList::new(Vec::new()),
            sorted_by: None,
            args,
        };
        proof {
            assert(r@.items =~= Seq::<ItemV>::empty());
        }
        r
    }

    /// The active sort, if any.
    pub fn get_sorted(&self) -> (r: Option<(Header, SortedOrder)>)
        ensures
            r == self@.sorted,
    {
        self.sorted_by
    }

    /// Sort the item list by the active sort; with none, order by
    /// creation time. The selection index is left untouched.
    pub fn sort_containers(&mut self)
        requires
            old(self).wf(),
        ensures
            final(self)@.items == spec_sort_items(old(self)@.sorted, old(self)@.items),
            final(self)@.sel == old(self)@.sel,
            final(self)@.sorted == old(self)@.sorted,
            final(self)@.args == old(self)@.args,
            final(self).wf(),
    {
        let sb = self.sorted_by;
        self.sort_items_by(sb);
    }

    /// Sort the item list by the given setting, leaving selection, sort
    /// setting and arguments untouched.
    fn sort_items_by(&mut self, sb: Option<(Header, SortedOrder)>)
        requires
            old(self).wf(),
        ensures
            final(self)@.items == spec_sort_items(sb, old(self)@.items),
            final(self)@.sel == old(self)@.sel,
            final(self)@.sorted == old(self)@.sorted,
            final(self)@.args == old(self)@.args,
            final(self).wf(),
    {
        let ghost orig = items_view(self.containers.items@);
        let n = self.containers.items.len();
        let mut i: usize = 1;
        proof {
            broadcast use group_seq_properties;

            if n > 0 {
                let s1 = orig.subrange(0, 1);
                assert(s1.len() == 1);
                assert(s1.drop_last() =~= Seq::<ItemV>::empty());
                assert(spec_sort_items(sb, s1.drop_last()) == s1.drop_last());
                assert(spec_sort_items(sb, s1) == spec_insert_item(sb, s1.drop_last(), s1.last()));
                assert(spec_insert_item(sb, s1.drop_last(), s1.last()) =~= seq![s1.last()]);
                assert(seq![s1.last()] =~= s1);
            }
            assert(items_view(self.containers.items@) =~= if n == 0 {
                orig
            } else {
                spec_sort_items(sb, orig.subrange(0, 1)) + orig.subrange(1, n as int)
            });
        }
        if n == 0 {
            proof {
                assert(spec_sort_items(sb, orig) =~= orig);
            }
            return;
        }
        while i < n
            invariant
                self.containers.items@.len() == n,
                orig.len() == n,
                1 <= i <= n,
                self.sorted_by == old(self).sorted_by,
                items_view(self.containers.items@) =~= spec_sort_items(
                    sb,
                    orig.subrange(0, i as int),
                ) + orig.subrange(i as int, n as int),
                self.containers.state == old(self).containers.state,
                self.args == old(self).args,
                forall|k: int| 0 <= k < n ==> item_wf(#[trigger] orig[k]),
                ids_unique(orig),
                forall|k: int|
                    0 <= k < n ==> item_wf(#[trigger] items_view(self.containers.items@)[k]),
                ids_unique(items_view(self.containers.items@)),
            decreases n - i,
        {
            proof {
                lemma_sort_items_len(sb, orig.subrange(0, i as int));
            }
            let ghost pre = items_view(self.containers.items@);
            let ghost sorted_prefix = spec_sort_items(sb, orig.subrange(0, i as int));
            let x = self.containers.items.remove(i);
            proof {
                assert(items_view(self.containers.items@) =~= pre.remove(i as int));
                assert(pre.remove(i as int) =~= sorted_prefix + orig.subrange(
                    i + 1,
                    n as int,
                ));
                assert(x@ == pre[i as int]);
                assert(pre[i as int] == orig[i as int]);
            }
            let mut j: usize = 0;
            while j < i && item_le_exec(sb, &self.containers.items[j], &x)
                invariant
                    self.containers.items@.len() == n - 1,
                    j <= i <= n,
                    i < n,
                    items_view(self.containers.items@) =~= sorted_prefix + orig.subrange(
                        i + 1,
                        n as int,
                    ),
                    sorted_prefix.len() == i,
                    forall|k: int| 0 <= k < j ==> item_le(sb, sorted_prefix[k], x@),
                decreases i - j,
            {
                proof {
                    assert(items_view(self.containers.items@)[j as int] == sorted_prefix[j as int]);
                }
                j += 1;
            }
            proof {
                if j < i {
                    assert(items_view(self.containers.items@)[j as int] == sorted_prefix[j as int]);
                }
                assert(j == i || !item_le(sb, sorted_prefix[j as int], x@));
                lemma_insert_item_split(sb, sorted_prefix, x@, j as int);
            }
            let ghost before_insert = items_view(self.containers.items@);
            self.containers.items.insert(j, x);
            proof {
                assert(items_view(self.containers.items@) =~= before_insert.insert(j as int, x@));
                assert(orig.subrange(0, i + 1).drop_last() =~= orig.subrange(0, i as int));
                assert(orig.subrange(0, i + 1).last() == orig[i as int]);
                assert(spec_sort_items(sb, orig.subrange(0, i + 1)) == spec_insert_item(
                    sb,
                    sorted_prefix,
                    x@,
                ));
                assert(items_view(self.containers.items@) =~= spec_insert_item(
                    sb,
                    sorted_prefix,
                    x@,
                ) + orig.subrange(i + 1, n as int));
                assert(items_view(self.containers.items@) =~= spec_sort_items(
                    sb,
                    orig.subrange(0, i + 1),
                ) + orig.subrange(i + 1, n as int));
                lemma_wf_perm(sb, orig.subrange(0, i as int), x@, j as int, i as int, orig, n as int, items_view(self.containers.items@));
            }
            i += 1;
        }
        proof {
            assert(orig.subrange(0, n as int) =~= orig);
            assert(orig.subrange(n as int, n as int) =~= Seq::<ItemV>::empty());
            assert(spec_sort_items(sb, orig) + Seq::<ItemV>::empty() =~= spec_sort_items(sb, orig));
        }
    }
}

/// Exec comparator matching `item_le`.
fn item_le_exec(sb: Option<(Header, SortedOrder)>, a: &ContainerItem, b: &ContainerItem) -> (r:
    bool)
    ensures
        r == item_le(sb, a@, b@),
{
    match sb {
        None => a.created <= b.created,
        Some((h, ord)) => {
            let asc = matches!(ord, SortedOrder::Asc);
            match h {
                Header::State => if asc {
                    b.state.order() <= a.state.order()
                } else {
                    a.state.order() <= b.state.order()
                },
                Header::Status => if asc {
                    str_le_exec(a.status.as_str(), b.status.as_str())
                } else {
                    str_le_exec(b.status.as_str(), a.status.as_str())
                },
                Header::Cpu => if asc {
                    a.cpu_stats.last_or_zero() <= b.cpu_stats.last_or_zero()
                } else {
                    b.cpu_stats.last_or_zero() <= a.cpu_stats.last_or_zero()
                },
                Header::Memory => if asc {
                    a.mem_stats.last_or_zero() <= b.mem_stats.last_or_zero()
                } else {
                    b.mem_stats.last_or_zero() <= a.mem_stats.last_or_zero()
                },
                Header::Id => if asc {
                    str_le_exec(a.id.get(), b.id.get())
                } else {
                    str_le_exec(b.id.get(), a.id.get())
                },
                Header::Name => if asc {
                    str_le_exec(a.name.as_str(), b.name.as_str())
                } else {
                    str_le_exec(b.name.as_str(), a.name.as_str())
                },
                Header::Image => if asc {
                    str_le_exec(a.image.as_str(), b.image.as_str())
                } else {
                    str_le_exec(b.image.as_str(), a.image.as_str())
                },
                Header::Rx => if asc {
                    a.rx.get_value() <= b.rx.get_value()
                } else {
                    b.rx.get_value() <= a.rx.get_value()
                },
                Header::Tx => if asc {
                    a.tx.get_value() <= b.tx.get_value()
                } else {
                    b.tx.get_value() <= a.tx.get_value()
                },
            }
        },
    }
}

/// One sort step keeps well-formedness and unique identifiers: the new
/// arrangement is a permutation of the original.
proof fn lemma_wf_perm(
    sb: Option<(Header, SortedOrder)>,
    prefix: Seq<ItemV>,
    x: ItemV,
    j: int,
    i: int,
    orig: Seq<ItemV>,
    n: int,
    cur: Seq<ItemV>,
)
    requires
        orig.len() == n,
        0 <= i < n,
        cur =~= spec_sort_items(sb, orig.subrange(0, i + 1)) + orig.subrange(i + 1, n),
        forall|k: int| 0 <= k < n ==> item_wf(#[trigger] orig[k]),
        ids_unique(orig),
    ensures
        forall|k: int| 0 <= k < cur.len() ==> item_wf(#[trigger] cur[k]),
        ids_unique(cur),
{
    broadcast use vstd::seq_lib::group_to_multiset_ensures;

    let front = orig.subrange(0, i + 1);
    let back = orig.subrange(i + 1, n);
    let sorted = spec_sort_items(sb, front);
    lemma_sort_items_multiset(sb, front);
    lemma_sort_items_len(sb, front);
    vstd::seq_lib::lemma_multiset_commutative(sorted, back);
    vstd::seq_lib::lemma_multiset_commutative(front, back);
    assert(front + back =~= orig);
    assert(cur.to_multiset() =~= orig.to_multiset());
    assert forall|k: int| 0 <= k < cur.len() implies item_wf(#[trigger] cur[k]) by {
        assert(cur.contains(cur[k]));
        assert(cur.to_multiset().count(cur[k]) > 0);
        assert(orig.to_multiset().count(cur[k]) > 0);
        assert(orig.contains(cur[k]));
        let m = choose|m: int| 0 <= m < orig.len() && orig[m] == cur[k];
        assert(item_wf(orig[m]));
    }
    assert forall|p: int, q: int| 0 <= p < q < cur.len() implies cur[p].id != cur[q].id by {
        if cur[p] == cur[q] {
            assert(cur.to_multiset().count(cur[p]) >= 2) by {
                let cur1 = cur.remove(q);
                assert(cur.to_multiset() =~= cur1.to_multiset().insert(cur[q]));
                assert(cur1[p] == cur[p]);
                assert(cur1.contains(cur[p]));
                assert(cur1.to_multiset().count(cur[p]) > 0);
            }
            assert(orig.to_multiset().count(cur[p]) >= 2);
            lemma_unique_count(orig, cur[p]);
        } else {
            assert(cur.contains(cur[p]));
            assert(cur.contains(cur[q]));
            assert(orig.to_multiset().count(cur[p]) > 0);
            assert(orig.to_multiset().count(cur[q]) > 0);
            assert(orig.contains(cur[p]));
            assert(orig.contains(cur[q]));
            let a = choose|a: int| 0 <= a < orig.len() && orig[a] == cur[p];
            let b = choose|b: int| 0 <= b < orig.len() && orig[b] == cur[q];
            assert(a != b);
            if a < b {
                assert(orig[a].id != orig[b].id);
            } else {
                assert(orig[b].id != orig[a].id);
            }
        }
    }
}

/// In a sequence with unique identifiers no item can occur twice.
proof fn lemma_unique_count(orig: Seq<ItemV>, x: ItemV)
    requires
        ids_unique(orig),
    ensures
        orig.to_multiset().count(x) <= 1,
    decreases orig.len(),
{
    broadcast use vstd::seq_lib::group_to_multiset_ensures;

    if orig.len() > 0 {
        let rest = orig.drop_first();
        assert(rest =~= orig.remove(0));
        assert(orig.to_multiset() =~= rest.to_multiset().insert(orig[0]));
        assert(ids_unique(rest)) by {
            assert forall|i: int, j: int| 0 <= i < j < rest.len() implies rest[i].id
                != rest[j].id by {
                assert(rest[i] == orig[i + 1]);
                assert(rest[j] == orig[j + 1]);
            }
        }
        lemma_unique_count(rest, x);
        if orig[0] == x {
            assert(rest.to_multiset().count(x) == 0) by {
                if rest.to_multiset().count(x) > 0 {
                    assert(rest.contains(x));
                    let m = choose|m: int| 0 <= m < rest.len() && rest[m] == x;
                    assert(orig[m + 1] == x);
                    assert(orig[0].id != orig[m + 1].id);
                }
            }
        }
    }
}

impl ContainerData {
    /// First index holding the given identifier, if any.
    fn find_index_by_id(&self, id: &ContainerId) -> (r: Option<usize>)
        ensures
            match spec_find_id(self@.items, id@) {
                Some(j) => r == Some(j as usize),
                None => r is None,
            },
    {
        proof {
            lemma_find_id_props(self@.items, id@);
        }
        let n = self.containers.items.len();
        let mut i: usize = 0;
        while i < n
            invariant
                n == self@.items.len(),
                i <= n,
                forall|k: int| 0 <= k < i ==> self@.items[k].id != id@,
            decreases n - i,
        {
            proof {
                assert(self@.items[i as int] == self.containers.items@[i as int]@);
            }
            if self.containers.items[i].id.same_as(id) {
                proof {
                    lemma_find_id_props(self@.items, id@);
                    assert(self@.items[i as int].id == id@);
                    match spec_find_id(self@.items, id@) {
                        Some(j) => {
                            assert(j <= i as int);
                            assert(j >= i as int);
                        },
                        None => {
                            assert(self@.items[i as int].id != id@);
                        },
                    }
                }
                return Some(i);
            }
            i += 1;
        }
        None
    }

    /// The identifier of the currently selected container; `None` only
    /// when no container is selected.
    pub fn get_selected_container_id(&self) -> (r: Option<ContainerId>)
        requires
            self.wf(),
        ensures
            match self@.sel {
                Some(s) => r matches Some(c) && c@ == self@.items[s as int].id,
                None => r is None,
            },
    {
        match self.containers.state.selected() {
            Some(s) => {
                proof {
                    assert(self@.items[s as int] == self.containers.items@[s as int]@);
                }
                Some(self.containers.items[s].id.clone())
            },
            None => None,
        }
    }

    /// Change the active sort, sort the items, and rebind the selection
    /// by identity: the previously selected container stays selected at
    /// its new index.
    fn set_sorted(&mut self, x: Option<(Header, SortedOrder)>)
        requires
            old(self).wf(),
        ensures
            final(self)@ == spec_set_sorted(old(self)@, x),
            final(self).wf(),
    {
        let prev_id = self.get_selected_container_id();
        self.sorted_by = x;
        self.sort_containers();
        let new_sel = match prev_id {
            Some(id) => self.find_index_by_id(&id),
            None => None,
        };
        proof {
            lemma_find_id_props(self@.items, match spec_sel_id(old(self)@) {
                Some(idv) => idv,
                None => Seq::<char>::empty(),
            });
        }
        self.containers.state.select(new_sel);
        proof {
            assert(self@ =~= spec_set_sorted(old(self)@, x)) by {
                assert(self@.items == spec_sort_items(x, old(self)@.items));
            };
        }
    }

    /// Remove any active sort and return to the baseline creation-time
    /// order.
    pub fn reset_sorted(&mut self)
        requires
            old(self).wf(),
        ensures
            final(self)@ == spec_set_sorted(old(self)@, None),
            final(self).wf(),
    {
        self.set_sorted(None);
    }

    /// Tri-state sort cycle on a header: a fresh header sorts ascending,
    /// a repeated one flips to descending and then clears the sort.
    pub fn set_sort_by_header(&mut self, selected_header: Header)
        requires
            old(self).wf(),
        ensures
            final(self)@ == spec_set_sorted(
                old(self)@,
                spec_sort_cycle(old(self)@.sorted, selected_header),
            ),
            final(self).wf(),
    {
        let mut output = Some((selected_header, SortedOrder::Asc));
        if let Some((current_header, order)) = self.get_sorted() {
            if matches!(current_header, h if h == selected_header) {
                match order {
                    SortedOrder::Desc => output = None,
                    SortedOrder::Asc => output = Some((selected_header, SortedOrder::Desc)),
                }
            }
        }
        self.set_sorted(output);
    }

    /// Number of containers in the registry.
    pub fn get_container_len(&self) -> (r: usize)
        ensures
            r == self@.items.len(),
    {
        self.containers.items.len()
    }

    /// The `cursor/length` caption of the containers panel.
    pub fn container_title(&self) -> (r: String)
        requires
            self.wf(),
        ensures
            r@ == crate::app_data::container_state::spec_state_title(
                self@.items.len() as int,
                self@.sel,
            ),
    {
        self.containers.get_state_title()
    }

    /// Select the first container.
    pub fn containers_start(&mut self)
        requires
            old(self).wf(),
        ensures
            final(self)@.items == old(self)@.items,
            final(self)@.sorted == old(self)@.sorted,
            final(self)@.args == old(self)@.args,
            final(self)@.sel == if old(self)@.items.len() > 0 {
                Some(0usize)
            } else {
                old(self)@.sel
            },
            final(self).wf(),
    {
        self.containers.start();
    }

    /// Select the last container.
    pub fn containers_end(&mut self)
        requires
            old(self).wf(),
        ensures
            final(self)@.items == old(self)@.items,
            final(self)@.sorted == old(self)@.sorted,
            final(self)@.args == old(self)@.args,
            final(self)@.sel == if old(self)@.items.len() > 0 {
                Some((old(self)@.items.len() - 1) as usize)
            } else {
                old(self)@.sel
            },
            final(self).wf(),
    {
        self.containers.end();
    }

    /// Select the next container, clamping at the end.
    pub fn containers_next(&mut self)
        requires
            old(self).wf(),
        ensures
            final(self)@.items == old(self)@.items,
            final(self)@.sorted == old(self)@.sorted,
            final(self)@.args == old(self)@.args,
            final(self)@.sel == spec_sel_next(old(self)@.items.len() as int, old(self)@.sel),
            final(self).wf(),
    {
        self.containers.next();
    }

    /// Select the previous container, clamping at the start.
    pub fn containers_previous(&mut self)
        requires
            old(self).wf(),
        ensures
            final(self)@.items == old(self)@.items,
            final(self)@.sorted == old(self)@.sorted,
            final(self)@.args == old(self)@.args,
            final(self)@.sel == spec_sel_previous(old(self)@.items.len() as int, old(self)@.sel),
            final(self).wf(),
    {
        self.containers.previous();
    }

    /// The container items in panel order.
    pub fn get_container_items(&self) -> (r: &Vec<ContainerItem>)
        ensures
            items_view(r@) == self@.items,
    {
        &self.containers.items
    }

    /// The selection cursor of the containers panel.
    pub fn get_container_state(&self) -> (r: crate::app_data::container_state::ListState)
        ensures
            r.selected == self@.sel,
    {
        self.containers.state
    }

    /// The currently selected container, if any.
    pub fn get_selected_container(&self) -> (r: Option<&ContainerItem>)
        requires
            self.wf(),
        ensures
            match self@.sel {
                Some(s) => r matches Some(c) && c@ == self@.items[s as int],
                None => r is None,
            },
    {
        match self.containers.state.selected() {
            Some(s) => {
                proof {
                    assert(self@.items[s as int] == self.containers.items@[s as int]@);
                }
                Some(&self.containers.items[s])
            },
            None => None,
        }
    }

    /// The name of the currently selected container, if any.
    pub fn get_selected_container_name(&self) -> (r: Option<String>)
        requires
            self.wf(),
        ensures
            match self@.sel {
                Some(s) => r matches Some(nm) && nm@ == self@.items[s as int].name,
                None => r is None,
            },
    {
        match self.get_selected_container() {
            Some(c) => Some(c.name.clone()),
            None => None,
        }
    }

    /// The name of the container with the given identifier, if known.
    pub fn get_container_name_by_id(&self, id: &ContainerId) -> (r: Option<String>)
        ensures
            match spec_find_id(self@.items, id@) {
                Some(j) => r matches Some(nm) && nm@ == self@.items[j].name,
                None => r is None,
            },
    {
        let n = self.containers.items.len();
        match self.find_index_by_id(id) {
            Some(j) => {
                proof {
                    lemma_find_id_props(self@.items, id@);
                    let fj = spec_find_id(self@.items, id@)->0;
                    assert(0 <= fj < self@.items.len());
                    assert(fj < n as int);
                    assert(j == fj as usize);
                    assert(j as int == fj);
                    assert(self@.items[j as int] == self.containers.items@[j as int]@);
                }
                Some(self.containers.items[j].name.clone())
            },
            None => None,
        }
    }

    /// Whether the selected container is this dashboard itself running
    /// containerised, so that commands against it can be refused.
    pub fn is_oxker(&self) -> (r: bool)
        requires
            self.wf(),
        ensures
            r == match self@.sel {
                Some(s) => self@.items[s as int].is_oxker,
                None => false,
            },
    {
        match self.get_selected_container() {
            Some(c) => c.is_oxker,
            None => false,
        }
    }
}

/// The command prefix that marks a container as this dashboard itself
/// running containerised.
pub const ENTRY_POINT: &'static str = "/app/oxker";

/// One entry of a runtime snapshot as the wire client reports it: every
/// field optional, names carrying a leading slash, state and status as
/// free text.
#[derive(Debug)]
pub struct ContainerSummary {
    pub id: Option<String>,
    pub names: Option<Vec<String>>,
    pub image: Option<String>,
    pub state: Option<String>,
    pub status: Option<String>,
    pub created: Option<i64>,
    pub command: Option<String>,
}

/// The observable content of one snapshot entry.
pub struct SummaryV {
    pub id: Option<Seq<char>>,
    pub names: Option<Seq<Seq<char>>>,
    pub image: Option<Seq<char>>,
    pub state: Option<Seq<char>>,
    pub status: Option<Seq<char>>,
    pub created: Option<i64>,
    pub command: Option<Seq<char>>,
}

impl View for ContainerSummary {
    type V = SummaryV;

    open spec fn view(&self) -> SummaryV {
        SummaryV {
            id: match self.id {
                Some(ref s) => Some(s@),
                None => None,
            },
            names: match self.names {
                Some(ref v) => Some(v@.map_values(|s: String| s@)),
                None => None,
            },
            image: match self.image {
                Some(ref s) => Some(s@),
                None => None,
            },
            state: match self.state {
                Some(ref s) => Some(s@),
                None => None,
            },
            status: match self.status {
                Some(ref s) => Some(s@),
                None => None,
            },
            created: self.created,
            command: match self.command {
                Some(ref s) => Some(s@),
                None => None,
            },
        }
    }
}

/// A snapshot entry reduced to the plain values the registry stores.
#[derive(Debug)]
pub struct ParsedSummary {
    pub id: ContainerId,
    pub name: String,
    pub image: String,
    pub state: State,
    pub status: String,
    pub created: u64,
    pub is_oxker: bool,
}

/// The observable content of one parsed snapshot entry.
pub struct ParsedV {
    pub id: Seq<char>,
    pub name: Seq<char>,
    pub image: Seq<char>,
    pub state: State,
    pub status: Seq<char>,
    pub created: u64,
    pub is_oxker: bool,
}

impl View for ParsedSummary {
    type V = ParsedV;

    open spec fn view(&self) -> ParsedV {
        ParsedV {
            id: self.id@,
            name: self.name@,
            image: self.image@,
            state: self.state,
            status: self.status@,
            created: self.created,
            is_oxker: self.is_oxker,
        }
    }
}

/// The display name of a snapshot entry: its first name with a leading
/// slash removed, or empty.
pub open spec fn spec_name_of(names: Option<Seq<Seq<char>>>) -> Seq<char> {
    match names {
        None => Seq::<char>::empty(),
        Some(v) => if v.len() == 0 {
            Seq::<char>::empty()
        } else if v[0].len() > 0 && v[0][0] == '/' {
            v[0].subrange(1, v[0].len() as int)
        } else {
            v[0]
        },
    }
}

/// How one snapshot entry parses: entries without an identifier are
/// dropped; a missing state reads as dead, state and status are trimmed,
/// negative or missing creation times read as zero, and the entry is
/// marked as the dashboard itself when its command starts with the entry
/// point.
pub open spec fn spec_parse_summary(s: SummaryV) -> Option<ParsedV> {
    match s.id {
        None => None,
        Some(idv) => Some(
            ParsedV {
                id: idv,
                name: spec_name_of(s.names),
                image: match s.image {
                    Some(im) => im,
                    None => Seq::<char>::empty(),
                },
                state: crate::app_data::container_state::spec_state_from(
                    crate::text::spec_trim(
                        match s.state {
                            Some(st) => st,
                            None => "dead"@,
                        },
                    ),
                ),
                status: crate::text::spec_trim(
                    match s.status {
                        Some(st) => st,
                        None => Seq::<char>::empty(),
                    },
                ),
                created: match s.created {
                    Some(c) => if c >= 0 {
                        c as u64
                    } else {
                        0
                    },
                    None => 0,
                },
                is_oxker: match s.command {
                    Some(c) => crate::text::spec_starts_with(c, ENTRY_POINT@),
                    None => false,
                },
            },
        ),
    }
}

/// The parsed entries of a snapshot, in order, entries without an
/// identifier dropped.
pub open spec fn spec_parse_all(ss: Seq<SummaryV>) -> Seq<ParsedV>
    decreases ss.len(),
{
    if ss.len() == 0 {
        Seq::<ParsedV>::empty()
    } else {
        match spec_parse_summary(ss[0]) {
            Some(p) => seq![p].add(spec_parse_all(ss.drop_first())),
            None => spec_parse_all(ss.drop_first()),
        }
    }
}

/// Whether the snapshot carries the given identifier.
pub open spec fn spec_id_in_parsed(parsed: Seq<ParsedV>, id: Seq<char>) -> bool {
    exists|k: int| 0 <= k < parsed.len() && parsed[k].id == id
}

/// The registry items that survive a snapshot: those whose identifier
/// the snapshot still carries, in their current order.
pub open spec fn spec_filter_kept(items: Seq<ItemV>, parsed: Seq<ParsedV>) -> Seq<ItemV>
    decreases items.len(),
{
    if items.len() == 0 {
        items
    } else if spec_id_in_parsed(parsed, items[0].id) {
        seq![items[0]].add(spec_filter_kept(items.drop_first(), parsed))
    } else {
        spec_filter_kept(items.drop_first(), parsed)
    }
}

/// The selection after removals: a kept selected item stays selected at
/// its new index; a removed one passes the selection to the previous
/// surviving item, to the first item, or to none when nothing survives.
pub open spec fn spec_remove_sel(
    items: Seq<ItemV>,
    parsed: Seq<ParsedV>,
    sel: Option<usize>,
) -> Option<int> {
    match sel {
        None => None,
        Some(s) => {
            let kb = spec_filter_kept(items.subrange(0, s as int), parsed).len() as int;
            if (s as int) < items.len() && spec_id_in_parsed(parsed, items[s as int].id) {
                Some(kb)
            } else if spec_filter_kept(items, parsed).len() == 0 {
                None
            } else if kb > 0 {
                Some(kb - 1)
            } else {
                Some(0)
            }
        },
    }
}

/// An item patched from a snapshot entry: name, status, state and image
/// are overwritten, history and everything else untouched.
pub open spec fn spec_patch(it: ItemV, p: ParsedV) -> ItemV {
    ItemV { name: p.name, status: p.status, state: p.state, image: p.image, ..it }
}

/// One snapshot entry folded into the items: patch the item carrying its
/// identifier, or append a newly constructed one.
pub open spec fn spec_upsert_one(items: Seq<ItemV>, p: ParsedV) -> Seq<ItemV> {
    match spec_find_id(items, p.id) {
        Some(j) => items.update(j, spec_patch(items[j], p)),
        None => items.push(
            crate::app_data::container_state::spec_new_item(
                p.created,
                p.id,
                p.image,
                p.is_oxker,
                p.name,
                p.state,
                p.status,
            ),
        ),
    }
}

/// All snapshot entries folded into the items, in snapshot order.
pub open spec fn spec_upsert_all(items: Seq<ItemV>, parsed: Seq<ParsedV>) -> Seq<ItemV>
    decreases parsed.len(),
{
    if parsed.len() == 0 {
        items
    } else {
        spec_upsert_all(spec_upsert_one(items, parsed[0]), parsed.drop_first())
    }
}

/// What one reconciliation does to the registry, in order: items absent
/// from the snapshot are removed with the selection reseated; snapshot
/// entries are patched in or appended; a previously empty registry gets
/// the baseline creation-time order; a still-unset selection moves to
/// the first item; and the active sort, if any, is re-applied with the
/// selection rebound by identity.
pub open spec fn spec_reconcile(r: RegV, parsed: Seq<ParsedV>) -> RegV {
    let sel1 = spec_remove_sel(r.items, parsed, r.sel);
    let items1 = spec_filter_kept(r.items, parsed);
    let items2 = spec_upsert_all(items1, parsed);
    let items3 = if r.items.len() == 0 {
        spec_sort_items(None, items2)
    } else {
        items2
    };
    let sel3: Option<usize> = if sel1 is None && items3.len() > 0 {
        Some(0usize)
    } else {
        match sel1 {
            Some(k) => Some(k as usize),
            None => None,
        }
    };
    match r.sorted {
        None => RegV { items: items3, sel: sel3, sorted: r.sorted, args: r.args },
        Some(sb) => {
            let prev = match sel3 {
                Some(s) => if (s as int) < items3.len() {
                    Some(items3[s as int].id)
                } else {
                    None
                },
                None => None,
            };
            let items4 = spec_sort_items(Some(sb), items3);
            RegV {
                items: items4,
                sel: spec_rebind_sel(items4, prev),
                sorted: r.sorted,
                args: r.args,
            }
        },
    }
}

/// The view of a sequence of parsed snapshot entries.
pub open spec fn parsed_view(s: Seq<ParsedSummary>) -> Seq<ParsedV> {
    s.map_values(|p: ParsedSummary| p@)
}

proof fn lemma_filter_concat(a: Seq<ItemV>, b: Seq<ItemV>, parsed: Seq<ParsedV>)
    ensures
        spec_filter_kept(a.add(b), parsed) == spec_filter_kept(a, parsed).add(
            spec_filter_kept(b, parsed),
        ),
    decreases a.len(),
{
    if a.len() == 0 {
        assert(a.add(b) =~= b);
        assert(spec_filter_kept(a, parsed).add(spec_filter_kept(b, parsed)) =~= spec_filter_kept(
            b,
            parsed,
        ));
    } else {
        assert(a.add(b)[0] == a[0]);
        assert(a.add(b).drop_first() =~= a.drop_first().add(b));
        lemma_filter_concat(a.drop_first(), b, parsed);
        if spec_id_in_parsed(parsed, a[0].id) {
            assert(seq![a[0]].add(
                spec_filter_kept(a.drop_first(), parsed).add(spec_filter_kept(b, parsed)),
            ) =~= seq![a[0]].add(spec_filter_kept(a.drop_first(), parsed)).add(
                spec_filter_kept(b, parsed),
            ));
        }
    }
}

proof fn lemma_filter_push(s: Seq<ItemV>, parsed: Seq<ParsedV>, x: ItemV)
    ensures
        spec_filter_kept(s.push(x), parsed) == spec_filter_kept(s, parsed).add(
            if spec_id_in_parsed(parsed, x.id) {
                seq![x]
            } else {
                Seq::<ItemV>::empty()
            },
        ),
    decreases s.len(),
{
    let tail: Seq<ItemV> = if spec_id_in_parsed(parsed, x.id) {
        seq![x]
    } else {
        Seq::<ItemV>::empty()
    };
    if s.len() == 0 {
        assert(s.push(x) =~= seq![x]);
        assert(seq![x].drop_first() =~= Seq::<ItemV>::empty());
        assert(spec_filter_kept(Seq::<ItemV>::empty(), parsed) =~= Seq::<ItemV>::empty());
        if spec_id_in_parsed(parsed, x.id) {
            assert(spec_filter_kept(seq![x], parsed) =~= seq![x].add(Seq::<ItemV>::empty()));
            assert(spec_filter_kept(s.push(x), parsed) =~= spec_filter_kept(s, parsed).add(tail));
        } else {
            assert(spec_filter_kept(s.push(x), parsed) =~= spec_filter_kept(s, parsed).add(tail));
        }
    } else {
        assert(s.push(x)[0] == s[0]);
        assert(s.push(x).drop_first() =~= s.drop_first().push(x));
        lemma_filter_push(s.drop_first(), parsed, x);
        if spec_id_in_parsed(parsed, s[0].id) {
            assert(seq![s[0]].add(spec_filter_kept(s.drop_first(), parsed).add(tail))
                =~= seq![s[0]].add(spec_filter_kept(s.drop_first(), parsed)).add(tail));
        }
    }
}

/// Whether the parsed snapshot carries the identifier.
fn id_in_parsed_exec(parsed: &Vec<ParsedSummary>, id: &ContainerId) -> (r: bool)
    ensures
        r == spec_id_in_parsed(parsed_view(parsed@), id@),
{
    let n = parsed.len();
    let mut i: usize = 0;
    while i < n
        invariant
            n == parsed@.len(),
            i <= n,
            forall|k: int| 0 <= k < i ==> parsed_view(parsed@)[k].id != id@,
        decreases n - i,
    {
        proof {
            assert(parsed_view(parsed@)[i as int] == parsed@[i as int]@);
        }
        if parsed[i].id.same_as(id) {
            return true;
        }
        i += 1;
    }
    false
}

/// Parse one snapshot entry; entries without an identifier are dropped.
pub fn parse_summary(s: ContainerSummary) -> (r: Option<ParsedSummary>)
    ensures
        match spec_parse_summary(s@) {
            Some(pv) => r matches Some(p) && p@ == pv,
            None => r is None,
        },
{
    let ghost sv = s@;
    match s.id {
        None => None,
        Some(id_str) => {
            let name: String = match s.names {
                None => String::new(),
                Some(mut v) => if v.len() == 0 {
                    String::new()
                } else {
                    let f = v.remove(0);
                    let fl = f.as_str().unicode_len();
                    if fl > 0 && f.as_str().get_char(0) == '/' {
                        let cut = f.as_str().substring_char(1, fl);
                        cut.to_owned()
                    } else {
                        f
                    }
                },
            };
            let state_src: String = match s.state {
                Some(st) => st,
                None => String::from_str("dead"),
            };
            let trimmed_state = crate::text::trim_str(state_src.as_str());
            let state = State::from_str(trimmed_state.as_str());
            let status: String = match s.status {
                Some(st) => crate::text::trim_str(st.as_str()),
                None => String::new(),
            };
            proof {
                assert(crate::text::spec_trim(Seq::<char>::empty()) =~= Seq::<char>::empty());
            }
            let created: u64 = match s.created {
                Some(c) => if c >= 0 {
                    c as u64
                } else {
                    0
                },
                None => 0,
            };
            let is_oxker: bool = match s.command {
                Some(c) => crate::text::str_starts_with(c.as_str(), ENTRY_POINT),
                None => false,
            };
            let image: String = match s.image {
                Some(im) => im,
                None => String::new(),
            };
            Some(
                ParsedSummary {
                    id: ContainerId::new(id_str),
                    name,
                    image,
                    state,
                    status,
                    created,
                    is_oxker,
                },
            )
        },
    }
}

impl ContainerData {
    /// Reconcile a runtime snapshot into the registry: see
    /// `spec_reconcile` for the exact effect. History fields of
    /// surviving items are untouched; the selection never points at a
    /// removed item; a previously empty registry takes the baseline
    /// creation-time order; and an active sort is re-applied with the
    /// selection rebound by identity.
    #[verifier::rlimit(60)]
    pub fn update_containers(&mut self, all_containers: Vec<ContainerSummary>)
        requires
            old(self).wf(),
        ensures
            final(self)@ == spec_reconcile(
                old(self)@,
                spec_parse_all(all_containers@.map_values(|c: ContainerSummary| c@)),
            ),
            final(self).wf(),
    {
        let ghost sviews = all_containers@.map_values(|c: ContainerSummary| c@);
        let ghost pall = spec_parse_all(sviews);

        // Parse the snapshot entries.
        let mut parsed: Vec<ParsedSummary> = Vec::new();
        let mut rem = all_containers;
        proof {
            assert(rem@.map_values(|c: ContainerSummary| c@) =~= sviews);
            assert(parsed_view(parsed@) =~= Seq::<ParsedV>::empty());
            assert(parsed_view(parsed@).add(spec_parse_all(sviews)) =~= pall);
        }
        while rem.len() > 0
            invariant
                parsed_view(parsed@).add(
                    spec_parse_all(rem@.map_values(|c: ContainerSummary| c@)),
                ) =~= pall,
            decreases rem@.len(),
        {
            let ghost rviews = rem@.map_values(|c: ContainerSummary| c@);
            let ghost parsed0 = parsed_view(parsed@);
            let c = rem.remove(0);
            proof {
                assert(rviews[0] == c@);
                assert(rem@.map_values(|cc: ContainerSummary| cc@) =~= rviews.drop_first());
            }
            match parse_summary(c) {
                Some(p) => {
                    parsed.push(p);
                    proof {
                        assert(parsed_view(parsed@) =~= parsed0.push(p@));
                        assert(parsed0.push(p@) =~= parsed0.add(seq![p@]));
                        assert(parsed0.add(seq![p@]).add(
                            spec_parse_all(rviews.drop_first()),
                        ) =~= parsed0.add(seq![p@].add(spec_parse_all(rviews.drop_first()))));
                    }
                },
                None => {},
            }
        }
        proof {
            assert(rem@.map_values(|c: ContainerSummary| c@) =~= Seq::<SummaryV>::empty());
            assert(parsed_view(parsed@) =~= pall);
        }

        // Remove items the snapshot no longer carries, reseating the
        // selection.
        let ghost orig_items = self@.items;
        let ghost pviews = parsed_view(parsed@);
        let old_sel = self.containers.state.selected();
        let was_empty = self.containers.items.len() == 0;
        let n = self.containers.items.len();
        let mut kept: Vec<ContainerItem> = Vec::new();
        let mut kb: usize = 0;
        let mut sel_kept = false;
        let mut i: usize = 0;
        proof {
            assert(orig_items.subrange(0, 0) =~= Seq::<ItemV>::empty());
            assert(spec_filter_kept(orig_items.subrange(0, 0), pviews) =~= Seq::<ItemV>::empty());
            assert(items_view(kept@) =~= Seq::<ItemV>::empty());
            assert(items_view(self.containers.items@) =~= orig_items.skip(0));
        }
        while i < n
            invariant
                orig_items.len() == n,
                i <= n,
                self.containers.items@.len() == n - i,
                items_view(self.containers.items@) =~= orig_items.skip(i as int),
                items_view(kept@) =~= spec_filter_kept(orig_items.subrange(0, i as int), pviews),
                parsed_view(parsed@) == pviews,
                match old_sel {
                    Some(s) => (s as int) < n && (i > s ==> {
                        &&& kb as int == spec_filter_kept(
                            orig_items.subrange(0, s as int),
                            pviews,
                        ).len()
                        &&& kb <= kept@.len()
                        &&& sel_kept == spec_id_in_parsed(pviews, orig_items[s as int].id)
                    }),
                    None => true,
                },
                forall|k: int| 0 <= k < n ==> item_wf(#[trigger] orig_items[k]),
                ids_unique(orig_items),
                self.containers.state.selected == old(self).containers.state.selected,
                self.sorted_by == old(self).sorted_by,
                self.args == old(self).args,
            decreases n - i,
        {
            let ghost kept0 = items_view(kept@);
            let ghost prev_items = self.containers.items@;
            let it = self.containers.items.remove(0);
            proof {
                assert(it == prev_items[0]);
                assert(items_view(prev_items)[0] == prev_items[0]@);
                assert(it@ == orig_items.skip(i as int)[0]);
                assert(orig_items.skip(i as int)[0] == orig_items[i as int]);
                assert(self.containers.items@ =~= prev_items.subrange(1, prev_items.len() as int));
                assert forall|k: int|
                    0 <= k < self.containers.items@.len() implies items_view(
                    self.containers.items@,
                )[k] == orig_items.skip(i + 1)[k] by {
                    assert(items_view(self.containers.items@)[k] == self.containers.items@[k]@);
                    assert(self.containers.items@[k] == prev_items[k + 1]);
                    assert(items_view(prev_items)[k + 1] == prev_items[k + 1]@);
                    assert(items_view(prev_items)[k + 1] == orig_items.skip(i as int)[k + 1]);
                    assert(orig_items.skip(i as int)[k + 1] == orig_items.skip(i + 1)[k]);
                }
                assert(items_view(self.containers.items@) =~= orig_items.skip(i + 1));
            }
            let keep = id_in_parsed_exec(&parsed, &it.id);
            if let Some(s) = old_sel {
                if s == i {
                    kb = kept.len();
                    sel_kept = keep;
                }
            }
            if keep {
                kept.push(it);
                proof {
                    assert(items_view(kept@) =~= kept0.push(it@));
                }
            }
            proof {
                assert(orig_items.subrange(0, i + 1) =~= orig_items.subrange(0, i as int).push(
                    orig_items[i as int],
                ));
                lemma_filter_push(orig_items.subrange(0, i as int), pviews, orig_items[i as int]);
                if keep {
                    assert(items_view(kept@) =~= spec_filter_kept(
                        orig_items.subrange(0, i + 1),
                        pviews,
                    ));
                } else {
                    assert(items_view(kept@) =~= spec_filter_kept(
                        orig_items.subrange(0, i + 1),
                        pviews,
                    ));
                }
            }
            i += 1;
        }
        proof {
            assert(orig_items.subrange(0, n as int) =~= orig_items);
        }
        self.containers.items = kept;
        let new_sel: Option<usize> = match old_sel {
            None => None,
            Some(_) => if sel_kept {
                Some(kb)
            } else if self.containers.items.len() == 0 {
                None
            } else if kb > 0 {
                Some(kb - 1)
            } else {
                Some(0)
            },
        };
        self.containers.state.select(new_sel);
        proof {
            if let Some(s) = old_sel {
                if sel_kept {
                    let pre = orig_items.subrange(0, s as int);
                    let post = orig_items.subrange(s as int, n as int);
                    assert(orig_items =~= pre.add(post));
                    lemma_filter_concat(pre, post, pviews);
                    assert(post[0] == orig_items[s as int]);
                    assert(spec_filter_kept(post, pviews).len() >= 1);
                    assert(kb as int + 1 <= spec_filter_kept(orig_items, pviews).len());
                }
            }
            let spec_sel1 = spec_remove_sel(orig_items, pviews, old_sel);
            assert(match new_sel {
                Some(k) => spec_sel1 == Some(k as int),
                None => spec_sel1 is None,
            });
            assert(items_view(self.containers.items@) =~= spec_filter_kept(orig_items, pviews));
            lemma_filter_wf(orig_items, pviews);
            assert(match new_sel {
                Some(k) => (k as int) < self@.items.len(),
                None => true,
            });
        }

        // Fold the snapshot entries in: patch known items, append new
        // ones.
        let ghost items1 = items_view(self.containers.items@);
        let mut prem = parsed;
        proof {
            assert(spec_upsert_all(items1, parsed_view(prem@)) == spec_upsert_all(items1, pviews));
        }
        while prem.len() > 0
            invariant
                spec_upsert_all(items_view(self.containers.items@), parsed_view(prem@))
                    == spec_upsert_all(items1, pviews),
                forall|k: int|
                    0 <= k < self@.items.len() ==> item_wf(#[trigger] self@.items[k]),
                ids_unique(self@.items),
                match self.containers.state.selected {
                    Some(k) => (k as int) < self@.items.len(),
                    None => true,
                },
                self.containers.state.selected == new_sel,
                self.sorted_by == old(self).sorted_by,
                self.args == old(self).args,
            decreases prem@.len(),
        {
            let ghost cur = items_view(self.containers.items@);
            let ghost rv = parsed_view(prem@);
            let p = prem.remove(0);
            proof {
                assert(rv[0] == p@);
                assert(parsed_view(prem@) =~= rv.drop_first());
                lemma_find_id_props(cur, p@.id);
            }
            let nlen = self.containers.items.len();
            match self.find_index_by_id(&p.id) {
                Some(j) => {
                    proof {
                        let fj = spec_find_id(cur, rv[0].id)->0;
                        assert(0 <= fj < cur.len());
                        assert(fj < nlen as int);
                        assert(j == fj as usize);
                        assert(j as int == fj);
                    }
                    let ParsedSummary { id: _, name, image, state, status, created: _, is_oxker: _ } = p;
                    let mut it = self.containers.items.remove(j);
                    let ghost pre = items_view(self.containers.items@);
                    if !crate::text::str_eq(it.name.as_str(), name.as_str()) {
                        it.name = name;
                    }
                    if !crate::text::str_eq(it.status.as_str(), status.as_str()) {
                        it.status = status;
                    }
                    if it.state != state {
                        it.state = state;
                    }
                    if !crate::text::str_eq(it.image.as_str(), image.as_str()) {
                        it.image = image;
                    }
                    self.containers.items.insert(j, it);
                    proof {
                        assert(spec_find_id(cur, rv[0].id) == Some(j as int));
                        assert(it@ == spec_patch(cur[j as int], rv[0]));
                        assert(pre =~= cur.remove(j as int));
                        assert(items_view(self.containers.items@) =~= pre.insert(j as int, it@));
                        assert(items_view(self.containers.items@) =~= cur.update(
                            j as int,
                            spec_patch(cur[j as int], rv[0]),
                        ));
                        assert(items_view(self.containers.items@) =~= spec_upsert_one(cur, rv[0]));
                    }
                },
                None => {
                    let ParsedSummary { id, name, image, state, status, created, is_oxker } = p;
                    let item = crate::app_data::container_state::ContainerItem::new(
                        created,
                        id,
                        image,
                        is_oxker,
                        name,
                        state,
                        status,
                    );
                    self.containers.items.push(item);
                    proof {
                        assert(items_view(self.containers.items@) =~= cur.push(item@));
                        assert(items_view(self.containers.items@) =~= spec_upsert_one(cur, rv[0]));
                        assert(item_wf(item@));
                    }
                },
            }
            proof {
                assert(self@.items.len() >= cur.len());
                assert(ids_unique(self@.items));
            }
        }

        // A previously empty registry takes the baseline creation-time
        // order, then a still-unset selection moves to the first item,
        // and an active sort is re-applied.
        if was_empty {
            self.sort_items_by(None);
        }
        if self.containers.state.selected().is_none() && self.containers.items.len() > 0 {
            self.containers.state.select(Some(0));
        }
        let sorted_now = self.sorted_by;
        if let Some(sb) = sorted_now {
            self.set_sorted(Some(sb));
        }
        proof {
            assert(self@ =~= spec_reconcile(old(self)@, pall));
        }
    }
}

/// The surviving items keep well-formedness and unique identifiers, and
/// there are no more of them than before.
pub proof fn lemma_filter_wf(items: Seq<ItemV>, parsed: Seq<ParsedV>)
    requires
        forall|k: int| 0 <= k < items.len() ==> item_wf(#[trigger] items[k]),
        ids_unique(items),
    ensures
        spec_filter_kept(items, parsed).len() <= items.len(),
        forall|k: int|
            0 <= k < spec_filter_kept(items, parsed).len() ==> item_wf(
                #[trigger] spec_filter_kept(items, parsed)[k],
            ),
        ids_unique(spec_filter_kept(items, parsed)),
    decreases items.len(),
{
    if items.len() > 0 {
        let rest = items.drop_first();
        assert(forall|k: int| 0 <= k < rest.len() ==> item_wf(#[trigger] rest[k])) by {
            assert(forall|k: int| 0 <= k < rest.len() ==> rest[k] == items[k + 1]);
        }
        assert(ids_unique(rest)) by {
            assert forall|a: int, b: int| 0 <= a < b < rest.len() implies rest[a].id
                != rest[b].id by {
                assert(rest[a] == items[a + 1]);
                assert(rest[b] == items[b + 1]);
            }
        }
        lemma_filter_wf(rest, parsed);
        if spec_id_in_parsed(parsed, items[0].id) {
            let out = seq![items[0]].add(spec_filter_kept(rest, parsed));
            assert forall|a: int, b: int| 0 <= a < b < out.len() implies out[a].id
                != out[b].id by {
                lemma_filter_contains_kept(rest, parsed, b - 1);
                if a > 0 {
                    lemma_filter_contains_kept(rest, parsed, a - 1);
                }
            }
        }
    }
}

/// An item after a stats update: the stale oldest sample leaves a full
/// window, fresh samples are appended, and the counters are overwritten.
pub open spec fn spec_stat_patch(
    it: ItemV,
    cpu_stat: Option<u64>,
    mem_stat: Option<u64>,
    mem_limit: u64,
    rx: u64,
    tx: u64,
) -> ItemV {
    ItemV {
        cpu: match cpu_stat {
            Some(c) => crate::app_data::container_state::spec_window_push(it.cpu, c),
            None => if it.cpu.len() >= 60 {
                it.cpu.drop_first()
            } else {
                it.cpu
            },
        },
        mem: match mem_stat {
            Some(m) => crate::app_data::container_state::spec_window_push(it.mem, m),
            None => if it.mem.len() >= 60 {
                it.mem.drop_first()
            } else {
                it.mem
            },
        },
        mem_limit,
        rx,
        tx,
        ..it
    }
}

/// What a stats update does to the registry: the named item's windows
/// and counters are updated and the active sort is re-applied; the
/// selection index is untouched. Unknown identifiers change nothing but
/// the re-sort.
pub open spec fn spec_update_stats(
    r: RegV,
    id: Seq<char>,
    cpu_stat: Option<u64>,
    mem_stat: Option<u64>,
    mem_limit: u64,
    rx: u64,
    tx: u64,
) -> RegV {
    let items1 = match spec_find_id(r.items, id) {
        Some(j) => r.items.update(j, spec_stat_patch(r.items[j], cpu_stat, mem_stat, mem_limit, rx, tx)),
        None => r.items,
    };
    RegV { items: spec_sort_items(r.sorted, items1), ..r }
}

/// The registry with a function applied to the selected item.
pub open spec fn spec_map_selected(r: RegV, f: spec_fn(ItemV) -> ItemV) -> RegV {
    match r.sel {
        Some(s) => if (s as int) < r.items.len() {
            RegV { items: r.items.update(s as int, f(r.items[s as int])), ..r }
        } else {
            r
        },
        None => r,
    }
}

/// The cursor moved to the last entry of a list of the given length.
pub open spec fn spec_sel_end(len: int, sel: Option<usize>) -> Option<usize> {
    if len > 0 {
        Some((len - 1) as usize)
    } else {
        sel
    }
}

/// The cursor moved to the first entry of a list of the given length.
pub open spec fn spec_sel_start(len: int, sel: Option<usize>) -> Option<usize> {
    if len > 0 {
        Some(0usize)
    } else {
        sel
    }
}

/// The item with its log cursor one line further.
pub open spec fn spec_log_next(it: ItemV) -> ItemV {
    ItemV {
        logs: crate::app_data::container_state::LogsV {
            sel: spec_sel_next(it.logs.lines.len() as int, it.logs.sel),
            ..it.logs
        },
        ..it
    }
}

/// The item with its log cursor one line back.
pub open spec fn spec_log_previous(it: ItemV) -> ItemV {
    ItemV {
        logs: crate::app_data::container_state::LogsV {
            sel: spec_sel_previous(it.logs.lines.len() as int, it.logs.sel),
            ..it.logs
        },
        ..it
    }
}

/// The item with its log cursor on the last line.
pub open spec fn spec_log_end(it: ItemV) -> ItemV {
    ItemV {
        logs: crate::app_data::container_state::LogsV {
            sel: spec_sel_end(it.logs.lines.len() as int, it.logs.sel),
            ..it.logs
        },
        ..it
    }
}

/// The item with its log cursor on the first line.
pub open spec fn spec_log_start(it: ItemV) -> ItemV {
    ItemV {
        logs: crate::app_data::container_state::LogsV {
            sel: spec_sel_start(it.logs.lines.len() as int, it.logs.sel),
            ..it.logs
        },
        ..it
    }
}

/// The item with its info cursor one line further.
pub open spec fn spec_info_next(it: ItemV) -> ItemV {
    ItemV { info_sel: spec_sel_next(it.info.len() as int, it.info_sel), ..it }
}

/// The item with its info cursor one line back.
pub open spec fn spec_info_previous(it: ItemV) -> ItemV {
    ItemV { info_sel: spec_sel_previous(it.info.len() as int, it.info_sel), ..it }
}

/// The item with its info cursor on the last line.
pub open spec fn spec_info_end(it: ItemV) -> ItemV {
    ItemV { info_sel: spec_sel_end(it.info.len() as int, it.info_sel), ..it }
}

/// The item with its info cursor on the first line.
pub open spec fn spec_info_start(it: ItemV) -> ItemV {
    ItemV { info_sel: spec_sel_start(it.info.len() as int, it.info_sel), ..it }
}

/// How a raw log line is rendered for display: the leading timestamp
/// token is stripped unless timestamps are kept, and ANSI escapes are
/// stripped unless colour or raw mode passes them through for the
/// renderer.
pub open spec fn spec_render_line(
    s: Seq<char>,
    color: bool,
    raw: bool,
    timestamp: bool,
) -> Seq<char> {
    let body = if timestamp {
        s
    } else {
        s.skip(crate::app_data::container_state::spec_tz_prefix(s).len() as int)
    };
    if color || raw {
        body
    } else {
        crate::text::spec_strip_ansi(body)
    }
}

/// All raw lines folded into a log store, each deduplicated by its
/// timestamp token.
pub open spec fn spec_apply_logs(
    l: crate::app_data::container_state::LogsV,
    raws: Seq<Seq<char>>,
    color: bool,
    raw: bool,
    timestamp: bool,
) -> crate::app_data::container_state::LogsV
    decreases raws.len(),
{
    if raws.len() == 0 {
        l
    } else {
        spec_apply_logs(
            crate::app_data::container_state::spec_logs_insert(
                l,
                spec_render_line(raws[0], color, raw, timestamp),
                crate::app_data::container_state::spec_tz_prefix(raws[0]),
            ),
            raws.drop_first(),
            color,
            raw,
            timestamp,
        )
    }
}

/// An item after a log update: the lines folded in, the update stamp
/// set, and the cursor advanced to the end when it was unset or already
/// at the previous end.
pub open spec fn spec_update_log_item(
    it: ItemV,
    raws: Seq<Seq<char>>,
    color: bool,
    raw: bool,
    timestamp: bool,
    now: u64,
) -> ItemV {
    let old_len = it.logs.lines.len() as int;
    let l2 = spec_apply_logs(it.logs, raws, color, raw, timestamp);
    let scroll = match l2.sel {
        None => true,
        Some(f) => f + 1 == old_len,
    };
    let sel2 = if scroll {
        spec_sel_end(l2.lines.len() as int, l2.sel)
    } else {
        l2.sel
    };
    ItemV {
        logs: crate::app_data::container_state::LogsV { sel: sel2, ..l2 },
        last_updated: now,
        ..it
    }
}

/// What a log update does to the registry: only the named item changes,
/// as `spec_update_log_item` says; an unknown identifier changes
/// nothing.
pub open spec fn spec_update_log(
    r: RegV,
    id: Seq<char>,
    raws: Seq<Seq<char>>,
    now: u64,
) -> RegV {
    match spec_find_id(r.items, id) {
        Some(j) => RegV {
            items: r.items.update(
                j,
                spec_update_log_item(r.items[j], raws, r.args.color, r.args.raw, r.args.timestamp, now),
            ),
            ..r
        },
        None => r,
    }
}

/// The cursor after a next-step on a list of the given length.
pub open spec fn spec_sel_next(len: int, sel: Option<usize>) -> Option<usize> {
    if len == 0 {
        sel
    } else {
        match sel {
            Some(i) => if (i as int) < len - 1 {
                Some((i + 1) as usize)
            } else {
                Some(i)
            },
            None => Some(0usize),
        }
    }
}

/// The cursor after a previous-step on a list of the given length.
pub open spec fn spec_sel_previous(len: int, sel: Option<usize>) -> Option<usize> {
    if len == 0 {
        sel
    } else {
        match sel {
            Some(i) => if i == 0 {
                Some(0usize)
            } else {
                Some((i - 1) as usize)
            },
            None => Some(0usize),
        }
    }
}

/// Sort cycle law: from no sort, successive requests on one header
/// yield ascending, then descending, then no sort again.
pub proof fn lemma_sort_cycle(h: Header)
    ensures
        spec_sort_cycle(None, h) == Some((h, SortedOrder::Asc)),
        spec_sort_cycle(Some((h, SortedOrder::Asc)), h) == Some((h, SortedOrder::Desc)),
        spec_sort_cycle(Some((h, SortedOrder::Desc)), h) is None,
{
}

/// Relies on std::time::SystemTime::now for the current Unix timestamp
/// in seconds; a clock before the epoch reads as zero.
#[verifier::external_body]
fn unix_time_secs() -> u64 {
    std::time::SystemTime::now()
        .duration_since(std::time::UNIX_EPOCH)
        .map(|d| d.as_secs())
        .unwrap_or(0)
}

impl ContainerData {
    /// Update the named item's CPU, memory and network stats in one
    /// call, then re-apply the active sort, whose keys may depend on
    /// these fields.
    pub fn update_stats(
        &mut self,
        id: &ContainerId,
        cpu_stat: Option<u64>,
        mem_stat: Option<u64>,
        mem_limit: u64,
        rx: u64,
        tx: u64,
    )
        requires
            old(self).wf(),
        ensures
            final(self)@ == spec_update_stats(
                old(self)@,
                id@,
                cpu_stat,
                mem_stat,
                mem_limit,
                rx,
                tx,
            ),
            final(self).wf(),
    {
        let ghost cur = self@.items;
        let nlen = self.containers.items.len();
        match self.find_index_by_id(id) {
            Some(j) => {
                proof {
                    lemma_find_id_props(cur, id@);
                    assert(j as int == spec_find_id(cur, id@)->0);
                }
                let mut it = self.containers.items.remove(j);
                let ghost pre = items_view(self.containers.items@);
                proof {
                    assert(item_wf(it@));
                }
                match cpu_stat {
                    Some(cpu) => it.cpu_stats.push(cpu),
                    None => it.cpu_stats.evict_if_full(),
                }
                match mem_stat {
                    Some(mem) => it.mem_stats.push(mem),
                    None => it.mem_stats.evict_if_full(),
                }
                it.rx.update(rx);
                it.tx.update(tx);
                it.mem_limit.update(mem_limit);
                self.containers.items.insert(j, it);
                proof {
                    assert(it@ == spec_stat_patch(
                        cur[j as int],
                        cpu_stat,
                        mem_stat,
                        mem_limit,
                        rx,
                        tx,
                    ));
                    assert(pre =~= cur.remove(j as int));
                    assert(items_view(self.containers.items@) =~= pre.insert(j as int, it@));
                    assert(items_view(self.containers.items@) =~= cur.update(j as int, it@));
                }
            },
            None => {},
        }
        self.sort_containers();
        proof {
            assert(self@ =~= spec_update_stats(
                old(self)@,
                id@,
                cpu_stat,
                mem_stat,
                mem_limit,
                rx,
                tx,
            ));
        }
    }

    /// Replace the named item's info text with the given lines.
    pub fn update_infos(&mut self, id: &ContainerId, info: &String)
        requires
            old(self).wf(),
        ensures
            final(self)@ == match spec_find_id(old(self)@.items, id@) {
                Some(j) => RegV {
                    items: old(self)@.items.update(
                        j,
                        ItemV {
                            info: crate::text::spec_split_lines(info@),
                            info_sel: None,
                            ..old(self)@.items[j]
                        },
                    ),
                    ..old(self)@
                },
                None => old(self)@,
            },
            final(self).wf(),
    {
        let ghost cur = self@.items;
        let nlen = self.containers.items.len();
        match self.find_index_by_id(id) {
            Some(j) => {
                proof {
                    lemma_find_id_props(cur, id@);
                    assert(j as int == spec_find_id(cur, id@)->0);
                }
                let lines = crate::text::split_lines(info.as_str());
                let mut it = self.containers.items.remove(j);
                let ghost pre = items_view(self.containers.items@);
                it.info = StatefulList::new(lines);
                self.containers.items.insert(j, it);
                proof {
                    assert(pre =~= cur.remove(j as int));
                    assert(items_view(self.containers.items@) =~= pre.insert(j as int, it@));
                    assert(items_view(self.containers.items@) =~= cur.update(j as int, it@));
                    assert(self@ =~= match spec_find_id(old(self)@.items, id@) {
                        Some(jj) => RegV {
                            items: old(self)@.items.update(
                                jj,
                                ItemV {
                                    info: crate::text::spec_split_lines(info@),
                                    info_sel: None,
                                    ..old(self)@.items[jj]
                                },
                            ),
                            ..old(self)@
                        },
                        None => old(self)@,
                    });
                }
            },
            None => {},
        }
    }

    /// A copy of the selected item's info lines; empty with no
    /// selection.
    pub fn get_infos(&self) -> (r: Vec<String>)
        requires
            self.wf(),
        ensures
            r@.map_values(|s: String| s@) == match self@.sel {
                Some(s) => self@.items[s as int].info,
                None => Seq::<Seq<char>>::empty(),
            },
    {
        match self.containers.state.selected() {
            Some(s) => {
                proof {
                    assert(self@.items[s as int] == self.containers.items@[s as int]@);
                }
                let item = &self.containers.items[s];
                let n = item.info.items.len();
                let mut out: Vec<String> = Vec::new();
                let mut i: usize = 0;
                while i < n
                    invariant
                        n == item.info.items@.len(),
                        i <= n,
                        out@.len() == i,
                        forall|k: int| 0 <= k < i ==> out@[k]@ == item.info.items@[k]@,
                    decreases n - i,
                {
                    out.push(item.info.items[i].clone());
                    i += 1;
                }
                proof {
                    assert(out@.map_values(|s2: String| s2@) =~= item@.info);
                }
                out
            },
            None => {
                let out: Vec<String> = Vec::new();
                proof {
                    assert(out@.map_values(|s2: String| s2@) =~= Seq::<Seq<char>>::empty());
                }
                out
            },
        }
    }

    /// Both chart payloads of the selected container.
    pub fn get_chart_data(&self) -> (r: Option<
        (
            crate::app_data::container_state::CpuTuple,
            crate::app_data::container_state::MemTuple,
        ),
    >)
        requires
            self.wf(),
        ensures
            (r is Some) == (self@.sel is Some),
            r matches Some(t) ==> {
                let it = self@.items[self@.sel->0 as int];
                &&& t.0.0@.len() == it.cpu.len()
                &&& (forall|i: int| 0 <= i < it.cpu.len() ==> t.0.0@[i] == (i as u64, it.cpu[i]))
                &&& t.0.1.0 == crate::app_data::container_state::spec_window_max(it.cpu)
                &&& t.0.2 == it.state
                &&& t.1.0@.len() == it.mem.len()
                &&& (forall|i: int| 0 <= i < it.mem.len() ==> t.1.0@[i] == (i as u64, it.mem[i]))
                &&& t.1.1.0 == crate::app_data::container_state::spec_window_max(it.mem)
                &&& t.1.2 == it.state
            },
    {
        match self.get_selected_container() {
            Some(c) => Some(c.get_chart_data()),
            None => None,
        }
    }

    /// A copy of the selected container's log lines; empty with no
    /// selection.
    pub fn get_logs(&self) -> (r: Vec<String>)
        requires
            self.wf(),
        ensures
            r@.map_values(|s: String| s@) == match self@.sel {
                Some(s) => self@.items[s as int].logs.lines,
                None => Seq::<Seq<char>>::empty(),
            },
    {
        match self.get_selected_container() {
            Some(c) => c.logs.to_vec(),
            None => {
                let out: Vec<String> = Vec::new();
                proof {
                    assert(out@.map_values(|s2: String| s2@) =~= Seq::<Seq<char>>::empty());
                }
                out
            },
        }
    }

    /// The log cursor of the selected container.
    pub fn get_log_state(&self) -> (r: Option<crate::app_data::container_state::ListState>)
        requires
            self.wf(),
        ensures
            match self@.sel {
                Some(s) => r matches Some(st) && st.selected == self@.items[s as int].logs.sel,
                None => r is None,
            },
    {
        match self.get_selected_container() {
            Some(c) => Some(
                crate::app_data::container_state::ListState { selected: c.logs.state() },
            ),
            None => None,
        }
    }

    /// The info cursor of the selected container.
    pub fn get_info_state(&self) -> (r: Option<crate::app_data::container_state::ListState>)
        requires
            self.wf(),
        ensures
            match self@.sel {
                Some(s) => r matches Some(st) && st.selected == self@.items[s as int].info_sel,
                None => r is None,
            },
    {
        match self.get_selected_container() {
            Some(c) => Some(c.info.state),
            None => None,
        }
    }
}

impl ContainerData {
    /// Apply a cursor move to the selected item's logs or info list.
    /// Each public navigation method below is one instance.
    fn map_selected_item(&mut self, op: u8)
        requires
            old(self).wf(),
            op < 8,
        ensures
            final(self)@ == spec_map_selected(old(self)@, spec_sel_op(op)),
            final(self).wf(),
    {
        let ghost cur = self@.items;
        match self.containers.state.selected() {
            Some(s) => {
                proof {
                    assert(self@.items[s as int] == self.containers.items@[s as int]@);
                }
                let mut it = self.containers.items.remove(s);
                let ghost pre = items_view(self.containers.items@);
                proof {
                    assert(item_wf(it@));
                }
                match op {
                    0 => it.logs.next(),
                    1 => it.logs.previous(),
                    2 => it.logs.end(),
                    3 => it.logs.start(),
                    4 => it.info.next(),
                    5 => it.info.previous(),
                    6 => it.info.end(),
                    _ => it.info.start(),
                }
                self.containers.items.insert(s, it);
                proof {
                    assert(it@ == spec_sel_op(op)(cur[s as int]));
                    assert(pre =~= cur.remove(s as int));
                    assert(items_view(self.containers.items@) =~= pre.insert(s as int, it@));
                    assert(items_view(self.containers.items@) =~= cur.update(s as int, it@));
                    assert(self@ =~= spec_map_selected(old(self)@, spec_sel_op(op)));
                }
            },
            None => {},
        }
    }

    /// Select the next log line of the selected container.
    pub fn log_next(&mut self)
        requires
            old(self).wf(),
        ensures
            final(self)@ == spec_map_selected(old(self)@, (|it: ItemV| spec_log_next(it))),
            final(self).wf(),
    {
        self.map_selected_item(0);
        proof {
            lemma_map_selected_op(old(self)@, 0);
        }
    }

    /// Select the previous log line of the selected container.
    pub fn log_previous(&mut self)
        requires
            old(self).wf(),
        ensures
            final(self)@ == spec_map_selected(old(self)@, (|it: ItemV| spec_log_previous(it))),
            final(self).wf(),
    {
        self.map_selected_item(1);
        proof {
            lemma_map_selected_op(old(self)@, 1);
        }
    }

    /// Select the last log line of the selected container.
    pub fn log_end(&mut self)
        requires
            old(self).wf(),
        ensures
            final(self)@ == spec_map_selected(old(self)@, (|it: ItemV| spec_log_end(it))),
            final(self).wf(),
    {
        self.map_selected_item(2);
        proof {
            lemma_map_selected_op(old(self)@, 2);
        }
    }

    /// Select the first log line of the selected container.
    pub fn log_start(&mut self)
        requires
            old(self).wf(),
        ensures
            final(self)@ == spec_map_selected(old(self)@, (|it: ItemV| spec_log_start(it))),
            final(self).wf(),
    {
        self.map_selected_item(3);
        proof {
            lemma_map_selected_op(old(self)@, 3);
        }
    }

    /// Select the next info line of the selected container.
    pub fn info_next(&mut self)
        requires
            old(self).wf(),
        ensures
            final(self)@ == spec_map_selected(old(self)@, (|it: ItemV| spec_info_next(it))),
            final(self).wf(),
    {
        self.map_selected_item(4);
        proof {
            lemma_map_selected_op(old(self)@, 4);
        }
    }

    /// Select the previous info line of the selected container.
    pub fn info_previous(&mut self)
        requires
            old(self).wf(),
        ensures
            final(self)@ == spec_map_selected(old(self)@, (|it: ItemV| spec_info_previous(it))),
            final(self).wf(),
    {
        self.map_selected_item(5);
        proof {
            lemma_map_selected_op(old(self)@, 5);
        }
    }

    /// Select the last info line of the selected container.
    pub fn info_end(&mut self)
        requires
            old(self).wf(),
        ensures
            final(self)@ == spec_map_selected(old(self)@, (|it: ItemV| spec_info_end(it))),
            final(self).wf(),
    {
        self.map_selected_item(6);
        proof {
            lemma_map_selected_op(old(self)@, 6);
        }
    }

    /// Select the first info line of the selected container.
    pub fn info_start(&mut self)
        requires
            old(self).wf(),
        ensures
            final(self)@ == spec_map_selected(old(self)@, (|it: ItemV| spec_info_start(it))),
            final(self).wf(),
    {
        self.map_selected_item(7);
        proof {
            lemma_map_selected_op(old(self)@, 7);
        }
    }
}

/// The cursor operation each navigation method applies.
pub open spec fn spec_sel_op(op: u8) -> spec_fn(ItemV) -> ItemV {
    if op == 0 {
        |it: ItemV| spec_log_next(it)
    } else if op == 1 {
        |it: ItemV| spec_log_previous(it)
    } else if op == 2 {
        |it: ItemV| spec_log_end(it)
    } else if op == 3 {
        |it: ItemV| spec_log_start(it)
    } else if op == 4 {
        |it: ItemV| spec_info_next(it)
    } else if op == 5 {
        |it: ItemV| spec_info_previous(it)
    } else if op == 6 {
        |it: ItemV| spec_info_end(it)
    } else {
        |it: ItemV| spec_info_start(it)
    }
}

proof fn lemma_map_selected_op(r: RegV, op: u8)
    ensures
        spec_map_selected(r, spec_sel_op(op)) == spec_map_selected(
            r,
            if op == 0 {
                |it: ItemV| spec_log_next(it)
            } else if op == 1 {
                |it: ItemV| spec_log_previous(it)
            } else if op == 2 {
                |it: ItemV| spec_log_end(it)
            } else if op == 3 {
                |it: ItemV| spec_log_start(it)
            } else if op == 4 {
                |it: ItemV| spec_info_next(it)
            } else if op == 5 {
                |it: ItemV| spec_info_previous(it)
            } else if op == 6 {
                |it: ItemV| spec_info_end(it)
            } else {
                |it: ItemV| spec_info_start(it)
            },
        ),
{
}

/// `spec_update_log` applied to the views of owned log lines.
pub open spec fn spec_update_log_views(
    r: RegV,
    id: Seq<char>,
    logs: Seq<String>,
    now: u64,
) -> RegV {
    spec_update_log(r, id, logs.map_values(|s: String| s@), now)
}

impl ContainerData {
    /// Fold raw log lines into the named item's log store at the given
    /// update time: each line is deduplicated by its leading timestamp
    /// token, rendered per the display configuration, and the cursor
    /// follows the end when it was unset or already there.
    pub fn update_log_by_id_at(&mut self, logs: Vec<String>, id: &ContainerId, now: u64)
        requires
            old(self).wf(),
        ensures
            final(self)@ == spec_update_log(
                old(self)@,
                id@,
                logs@.map_values(|s: String| s@),
                now,
            ),
            final(self).wf(),
    {
        let ghost cur = self@.items;
        let ghost raws = logs@.map_values(|s: String| s@);
        let color = self.args.color;
        let raw = self.args.raw;
        let timestamp = self.args.timestamp;
        let nlen = self.containers.items.len();
        match self.find_index_by_id(id) {
            Some(j) => {
                proof {
                    lemma_find_id_props(cur, id@);
                    assert(j as int == spec_find_id(cur, id@)->0);
                }
                let mut it = self.containers.items.remove(j);
                let ghost pre = items_view(self.containers.items@);
                proof {
                    assert(item_wf(it@));
                }
                it.last_updated = now;
                let current_len = it.logs.len();
                let ghost logs0 = it.logs@;
                let mut rem = logs;
                proof {
                    assert(rem@.map_values(|s: String| s@) =~= raws);
                }
                while rem.len() > 0
                    invariant
                        (j as int) < cur.len(),
                        it.logs.wf(),
                        spec_apply_logs(
                            it.logs@,
                            rem@.map_values(|s: String| s@),
                            color,
                            raw,
                            timestamp,
                        ) == spec_apply_logs(logs0, raws, color, raw, timestamp),
                        it@ == (ItemV { logs: it.logs@, last_updated: now, ..cur[j as int] }),
                    decreases rem@.len(),
                {
                    let ghost rv = rem@.map_values(|s: String| s@);
                    let line = rem.remove(0);
                    proof {
                        assert(rv[0] == line@);
                        assert(rem@.map_values(|s: String| s@) =~= rv.drop_first());
                        crate::app_data::container_state::lemma_tz_prefix_len(line@);
                    }
                    let tz = crate::app_data::container_state::LogsTz::from_line(&line);
                    let line_len = line.as_str().unicode_len();
                    let body: String = if !timestamp {
                        let tz_len = tz.char_len();
                        let cut = line.as_str().substring_char(tz_len, line_len);
                        proof {
                            assert(cut@ =~= line@.skip(
                                crate::app_data::container_state::spec_tz_prefix(line@).len() as int,
                            ));
                        }
                        cut.to_owned()
                    } else {
                        line
                    };
                    let rendered: String = if color || raw {
                        body
                    } else {
                        crate::text::strip_ansi(body.as_str())
                    };
                    proof {
                        assert(rendered@ == spec_render_line(rv[0], color, raw, timestamp));
                    }
                    it.logs.insert(rendered, tz);
                }
                proof {
                    assert(rem@.map_values(|s: String| s@) =~= Seq::<Seq<char>>::empty());
                    assert(it.logs@ == spec_apply_logs(logs0, raws, color, raw, timestamp));
                }
                let st = it.logs.state();
                let log_len = it.logs.len();
                proof {
                    if let Some(f) = st {
                        assert((f as int) < it.logs@.lines.len());
                    }
                }
                let scroll = match st {
                    None => true,
                    Some(f) => f + 1 == current_len,
                };
                if scroll {
                    it.logs.end();
                }
                self.containers.items.insert(j, it);
                proof {
                    assert(it@ == spec_update_log_item(
                        cur[j as int],
                        raws,
                        color,
                        raw,
                        timestamp,
                        now,
                    ));
                    assert(pre =~= cur.remove(j as int));
                    assert(items_view(self.containers.items@) =~= pre.insert(j as int, it@));
                    assert(items_view(self.containers.items@) =~= cur.update(j as int, it@));
                    assert(self@ =~= spec_update_log(old(self)@, id@, raws, now));
                }
            },
            None => {},
        }
    }

    /// Fold raw log lines into the named item's log store, stamping the
    /// item with the current time; apart from that stamp the effect is
    /// that of `update_log_by_id_at`.
    pub fn update_log_by_id(&mut self, logs: Vec<String>, id: &ContainerId)
        requires
            old(self).wf(),
        ensures
            exists|now: u64|
                final(self)@ == #[trigger] spec_update_log_views(old(self)@, id@, logs@, now),
            final(self).wf(),
    {
        let now = unix_time_secs();
        self.update_log_by_id_at(logs, id, now);
        proof {
            assert(final(self)@ == spec_update_log_views(old(self)@, id@, logs@, now));
        }
    }
}

/// The width contribution of a piece of text: its character count, read
/// as twelve when it cannot be held in a byte.
pub open spec fn spec_u8_len(s: Seq<char>) -> int {
    if s.len() > 255 {
        12
    } else {
        s.len() as int
    }
}

/// The width contribution of one item in the given column.
pub open spec fn spec_col_len(it: ItemV, h: Header) -> int {
    match h {
        Header::State => spec_u8_len(
            crate::app_data::container_state::spec_state_display(it.state),
        ),
        Header::Status => spec_u8_len(it.status),
        Header::Cpu => spec_u8_len(
            crate::app_data::container_state::spec_cpu_display(spec_last_or_zero(it.cpu) as int),
        ),
        Header::Memory => spec_u8_len(
            crate::app_data::container_state::spec_byte_display(spec_last_or_zero(it.mem) as int),
        ),
        Header::Id => 0,
        Header::Name => spec_u8_len(it.name),
        Header::Image => spec_u8_len(it.image),
        Header::Rx => spec_u8_len(
            crate::app_data::container_state::spec_byte_display(it.rx as int),
        ),
        Header::Tx => spec_u8_len(
            crate::app_data::container_state::spec_byte_display(it.tx as int),
        ),
    }
}

/// The width of a column over the items: the minimum heading width
/// widened by every item's contribution.
pub open spec fn spec_width_fold(items: Seq<ItemV>, min: int, h: Header) -> int
    decreases items.len(),
{
    if items.len() == 0 {
        min
    } else {
        let w = spec_width_fold(items.drop_last(), min, h);
        let c = spec_col_len(items.last(), h);
        if c > w {
            c
        } else {
            w
        }
    }
}

/// The width of the memory-limit column over the items.
pub open spec fn spec_width_fold_limit(items: Seq<ItemV>, min: int) -> int
    decreases items.len(),
{
    if items.len() == 0 {
        min
    } else {
        let w = spec_width_fold_limit(items.drop_last(), min);
        let c = spec_u8_len(
            crate::app_data::container_state::spec_byte_display(items.last().mem_limit as int),
        );
        if c > w {
            c
        } else {
            w
        }
    }
}

fn clamp_u8_len(s: &String) -> (r: u8)
    ensures
        r as int == spec_u8_len(s@),
{
    let c = s.as_str().unicode_len();
    if c > 255 {
        12
    } else {
        c as u8
    }
}

fn max_u8(a: u8, b: u8) -> (r: u8)
    ensures
        r as int == if b as int > a as int {
            b as int
        } else {
            a as int
        },
{
    if b > a {
        b
    } else {
        a
    }
}

/// The caption of the log panel: the log cursor position and the
/// selected container's name, empty without a selection.
pub open spec fn spec_log_title(r: RegV) -> Seq<char> {
    match r.sel {
        None => Seq::<char>::empty(),
        Some(s) => {
            let it = r.items[s as int];
            let lt = crate::app_data::container_state::spec_state_title(
                it.logs.lines.len() as int,
                it.logs.sel,
            );
            let name = crate::text::spec_take_chars(it.name, 32);
            if lt.len() == 0 {
                "- "@.add(name).add(" "@)
            } else {
                lt.add(" - "@).add(name)
            }
        },
    }
}

/// How many of the flagged identifiers are marked running.
pub open spec fn spec_count_running(s: Seq<(bool, ContainerId)>) -> int
    decreases s.len(),
{
    if s.len() == 0 {
        0int
    } else {
        spec_count_running(s.drop_last()) + if s.last().0 {
            1int
        } else {
            0int
        }
    }
}

/// How many items have at least one CPU sample.
pub open spec fn spec_count_with_cpu(items: Seq<ItemV>) -> int
    decreases items.len(),
{
    if items.len() == 0 {
        0int
    } else {
        spec_count_with_cpu(items.drop_last()) + if items.last().cpu.len() > 0 {
            1int
        } else {
            0int
        }
    }
}

impl ContainerData {
    /// The column widths of the containers panel: each column's minimum
    /// heading width, widened to fit every item's rendered text.
    pub fn get_width(&self) -> (r: crate::app_data::container_state::Columns)
        ensures
            r.state.0 == Header::State,
            r.state.1 as int == spec_width_fold(self@.items, 11, Header::State),
            r.status.0 == Header::Status,
            r.status.1 as int == spec_width_fold(self@.items, 16, Header::Status),
            r.cpu.0 == Header::Cpu,
            r.cpu.1 as int == spec_width_fold(self@.items, 7, Header::Cpu),
            r.mem.0 == Header::Memory,
            r.mem.1 as int == spec_width_fold(self@.items, 7, Header::Memory),
            r.mem.2 as int == spec_width_fold_limit(self@.items, 7),
            r.id == (Header::Id, 8u8),
            r.name.0 == Header::Name,
            r.name.1 as int == spec_width_fold(self@.items, 4, Header::Name),
            r.image.0 == Header::Image,
            r.image.1 as int == spec_width_fold(self@.items, 5, Header::Image),
            r.net_rx.0 == Header::Rx,
            r.net_rx.1 as int == spec_width_fold(self@.items, 7, Header::Rx),
            r.net_tx.0 == Header::Tx,
            r.net_tx.1 as int == spec_width_fold(self@.items, 7, Header::Tx),
    {
        let mut columns = crate::app_data::container_state::Columns::new();
        let ghost iv = self@.items;
        let n = self.containers.items.len();
        let mut i: usize = 0;
        proof {
            assert(iv.subrange(0, 0) =~= Seq::<ItemV>::empty());
        }
        while i < n
            invariant
                n == iv.len(),
                n == self.containers.items@.len(),
                iv == items_view(self.containers.items@),
                i <= n,
                columns.state.0 == Header::State,
                columns.state.1 as int == spec_width_fold(iv.subrange(0, i as int), 11, Header::State),
                columns.status.0 == Header::Status,
                columns.status.1 as int == spec_width_fold(iv.subrange(0, i as int), 16, Header::Status),
                columns.cpu.0 == Header::Cpu,
                columns.cpu.1 as int == spec_width_fold(iv.subrange(0, i as int), 7, Header::Cpu),
                columns.mem.0 == Header::Memory,
                columns.mem.1 as int == spec_width_fold(iv.subrange(0, i as int), 7, Header::Memory),
                columns.mem.2 as int == spec_width_fold_limit(iv.subrange(0, i as int), 7),
                columns.id == (Header::Id, 8u8),
                columns.name.0 == Header::Name,
                columns.name.1 as int == spec_width_fold(iv.subrange(0, i as int), 4, Header::Name),
                columns.image.0 == Header::Image,
                columns.image.1 as int == spec_width_fold(iv.subrange(0, i as int), 5, Header::Image),
                columns.net_rx.0 == Header::Rx,
                columns.net_rx.1 as int == spec_width_fold(iv.subrange(0, i as int), 7, Header::Rx),
                columns.net_tx.0 == Header::Tx,
                columns.net_tx.1 as int == spec_width_fold(iv.subrange(0, i as int), 7, Header::Tx),
            decreases n - i,
        {
            proof {
                assert(iv[i as int] == self.containers.items@[i as int]@);
            }
            let container = &self.containers.items[i];
            let cpu_text = crate::app_data::container_state::CpuStats::new(
                container.cpu_stats.last_or_zero(),
            ).display();
            let mem_text = crate::app_data::container_state::ByteStats::new(
                container.mem_stats.last_or_zero(),
            ).display();
            let state_text = container.state.display();
            let limit_text = container.mem_limit.display();
            let rx_text = container.rx.display();
            let tx_text = container.tx.display();
            columns.cpu.1 = max_u8(columns.cpu.1, clamp_u8_len(&cpu_text));
            columns.image.1 = max_u8(columns.image.1, clamp_u8_len(&container.image));
            columns.mem.1 = max_u8(columns.mem.1, clamp_u8_len(&mem_text));
            columns.mem.2 = max_u8(columns.mem.2, clamp_u8_len(&limit_text));
            columns.name.1 = max_u8(columns.name.1, clamp_u8_len(&container.name));
            columns.net_rx.1 = max_u8(columns.net_rx.1, clamp_u8_len(&rx_text));
            columns.net_tx.1 = max_u8(columns.net_tx.1, clamp_u8_len(&tx_text));
            columns.state.1 = max_u8(columns.state.1, clamp_u8_len(&state_text));
            columns.status.1 = max_u8(columns.status.1, clamp_u8_len(&container.status));
            proof {
                assert(iv.subrange(0, i + 1).drop_last() =~= iv.subrange(0, i as int));
                assert(iv.subrange(0, i + 1).last() == iv[i as int]);
            }
            i += 1;
        }
        proof {
            assert(iv.subrange(0, n as int) =~= iv);
        }
        columns
    }

    /// The caption of the log panel for the selected container: the log
    /// cursor position and the container's name shortened to 32
    /// characters; empty without a selection.
    pub fn get_log_title(&self) -> (r: String)
        requires
            self.wf(),
        ensures
            r@ == spec_log_title(self@),
    {
        match self.get_selected_container() {
            None => String::new(),
            Some(c) => {
                let logs_len = c.logs.get_state_title();
                let name = crate::text::take_chars(&c.name, 32);
                if logs_len.as_str().unicode_len() == 0 {
                    let mut out = String::from_str("- ");
                    out.append(name.as_str());
                    out.append(" ");
                    out
                } else {
                    let mut out = logs_len;
                    out.append(" - ");
                    out.append(name.as_str());
                    out
                }
            },
        }
    }

    /// Whether the initial round of stat fetches has completed: every
    /// identifier flagged as running has produced at least one CPU
    /// sample.
    pub fn initialised(&self, all_ids: &Vec<(bool, ContainerId)>) -> (r: bool)
        ensures
            r == (spec_count_running(all_ids@) == spec_count_with_cpu(self@.items)),
    {
        let ghost idsv = all_ids@;
        let n = all_ids.len();
        let mut count_is_running: usize = 0;
        let mut i: usize = 0;
        proof {
            assert(idsv.subrange(0, 0) =~= Seq::<(bool, ContainerId)>::empty());
        }
        while i < n
            invariant
                idsv == all_ids@,
                n == idsv.len(),
                i <= n,
                count_is_running <= i,
                count_is_running as int == spec_count_running(idsv.subrange(0, i as int)),
            decreases n - i,
        {
            if all_ids[i].0 {
                count_is_running += 1;
            }
            proof {
                assert(idsv.subrange(0, i + 1).drop_last() =~= idsv.subrange(0, i as int));
                assert(idsv.subrange(0, i + 1).last() == idsv[i as int]);
            }
            i += 1;
        }
        proof {
            assert(idsv.subrange(0, n as int) =~= idsv);
        }
        let ghost iv = self@.items;
        let m = self.containers.items.len();
        let mut number_with_cpu: usize = 0;
        let mut k: usize = 0;
        proof {
            assert(iv.subrange(0, 0) =~= Seq::<ItemV>::empty());
        }
        while k < m
            invariant
                m == iv.len(),
                m == self.containers.items@.len(),
                iv == items_view(self.containers.items@),
                k <= m,
                number_with_cpu <= k,
                number_with_cpu as int == spec_count_with_cpu(iv.subrange(0, k as int)),
            decreases m - k,
        {
            proof {
                assert(iv[k as int] == self.containers.items@[k as int]@);
            }
            if !self.containers.items[k].cpu_stats.is_empty() {
                number_with_cpu += 1;
            }
            proof {
                assert(iv.subrange(0, k + 1).drop_last() =~= iv.subrange(0, k as int));
                assert(iv.subrange(0, k + 1).last() == iv[k as int]);
            }
            k += 1;
        }
        proof {
            assert(iv.subrange(0, m as int) =~= iv);
        }
        count_is_running == number_with_cpu
    }
}

/// The patchable fields of an item agree with a snapshot entry.
pub open spec fn spec_synced(it: ItemV, p: ParsedV) -> bool {
    &&& it.id == p.id
    &&& it.name == p.name
    &&& it.status == p.status
    &&& it.state == p.state
    &&& it.image == p.image
}

/// The snapshot carries no identifier twice.
pub open spec fn parsed_ids_unique(parsed: Seq<ParsedV>) -> bool {
    forall|i: int, j: int| 0 <= i < j < parsed.len() ==> parsed[i].id != parsed[j].id
}

/// With unique identifiers, looking up the identifier of the item at a
/// position finds exactly that position.
proof fn lemma_id_lookup(items: Seq<ItemV>, m: int)
    requires
        ids_unique(items),
        0 <= m < items.len(),
    ensures
        spec_find_id(items, items[m].id) == Some(m),
{
    lemma_find_id_props(items, items[m].id);
    match spec_find_id(items, items[m].id) {
        Some(j) => {
            if j < m {
                assert(items[j].id != items[m].id);
            }
            if j > m {
                assert(items[m].id != items[j].id);
            }
        },
        None => {
            assert(items[m].id != items[m].id);
        },
    }
}

/// Sorting keeps identifiers unique.
proof fn lemma_sort_ids_unique(sb: Option<(Header, SortedOrder)>, s: Seq<ItemV>)
    requires
        ids_unique(s),
    ensures
        ids_unique(spec_sort_items(sb, s)),
{
    broadcast use vstd::seq_lib::group_to_multiset_ensures;

    let out = spec_sort_items(sb, s);
    lemma_sort_items_multiset(sb, s);
    lemma_sort_items_len(sb, s);
    assert forall|p: int, q: int| 0 <= p < q < out.len() implies out[p].id != out[q].id by {
        if out[p] == out[q] {
            assert(out.to_multiset().count(out[p]) >= 2) by {
                let out1 = out.remove(q);
                assert(out.to_multiset() =~= out1.to_multiset().insert(out[q]));
                assert(out1[p] == out[p]);
                assert(out1.contains(out[p]));
                assert(out1.to_multiset().count(out[p]) > 0);
            }
            assert(s.to_multiset().count(out[p]) >= 2);
            lemma_unique_count(s, out[p]);
        } else {
            assert(out.contains(out[p]));
            assert(out.contains(out[q]));
            assert(s.to_multiset().count(out[p]) > 0);
            assert(s.to_multiset().count(out[q]) > 0);
            assert(s.contains(out[p]));
            assert(s.contains(out[q]));
            let a = choose|a: int| 0 <= a < s.len() && s[a] == out[p];
            let b = choose|b: int| 0 <= b < s.len() && s[b] == out[q];
            if a < b {
                assert(s[a].id != s[b].id);
            } else {
                assert(s[b].id != s[a].id);
            }
        }
    }
}

/// What folding a whole snapshot into an item list guarantees: unique
/// identifiers stay unique, the original positions keep their
/// identifiers, items whose identifier the snapshot does not carry are
/// untouched, and every snapshot entry ends up synced into the item
/// found under its identifier.
proof fn lemma_upsert_all_props(items: Seq<ItemV>, parsed: Seq<ParsedV>)
    requires
        ids_unique(items),
        parsed_ids_unique(parsed),
    ensures
        ({
            let out = spec_upsert_all(items, parsed);
            &&& ids_unique(out)
            &&& items.len() <= out.len() <= items.len() + parsed.len()
            &&& (forall|k: int| 0 <= k < items.len() ==> out[k].id == #[trigger] items[k].id)
            &&& (forall|k: int|
                0 <= k < items.len() && !spec_id_in_parsed(parsed, items[k].id)
                    ==> out[k] == #[trigger] items[k])
            &&& (forall|k: int|
                0 <= k < out.len() ==> spec_find_id(items, (#[trigger] out[k]).id) is Some
                    || spec_id_in_parsed(parsed, out[k].id))
            &&& (forall|k: int|
                0 <= k < parsed.len() ==> {
                    let f = spec_find_id(out, (#[trigger] parsed[k]).id);
                    &&& f is Some
                    &&& 0 <= f->0 < out.len()
                    &&& spec_synced(out[f->0], parsed[k])
                })
        }),
    decreases parsed.len(),
{
    let out = spec_upsert_all(items, parsed);
    if parsed.len() == 0 {
        assert forall|k: int| 0 <= k < out.len() implies spec_find_id(
            items,
            (#[trigger] out[k]).id,
        ) is Some || spec_id_in_parsed(parsed, out[k].id) by {
            lemma_id_lookup(items, k);
        }
    } else {
        let p = parsed[0];
        let rest = parsed.drop_first();
        lemma_find_id_props(items, p.id);
        let mid = spec_upsert_one(items, p);
        // One step: `mid` facts.
        assert(ids_unique(mid) && items.len() <= mid.len() <= items.len() + 1) by {
            match spec_find_id(items, p.id) {
                Some(j) => {
                    assert(mid =~= items.update(j, spec_patch(items[j], p)));
                    assert(forall|k: int| 0 <= k < mid.len() ==> mid[k].id == items[k].id);
                },
                None => {
                    assert(mid =~= items.push(
                        crate::app_data::container_state::spec_new_item(
                            p.created,
                            p.id,
                            p.image,
                            p.is_oxker,
                            p.name,
                            p.state,
                            p.status,
                        ),
                    ));
                    assert forall|a: int, b: int| 0 <= a < b < mid.len() implies mid[a].id
                        != mid[b].id by {
                        if b == items.len() {
                            assert(items[a].id != p.id);
                        }
                    }
                },
            }
        }
        assert(parsed_ids_unique(rest)) by {
            assert forall|i: int, j: int| 0 <= i < j < rest.len() implies rest[i].id
                != rest[j].id by {
                assert(rest[i] == parsed[i + 1]);
                assert(rest[j] == parsed[j + 1]);
            }
        }
        lemma_upsert_all_props(mid, rest);
        assert(out == spec_upsert_all(mid, rest));
        // The entry just folded in is synced in `mid` and not touched by
        // the remaining entries, whose identifiers all differ.
        let j0: int = match spec_find_id(items, p.id) {
            Some(j) => j,
            None => items.len() as int,
        };
        assert(0 <= j0 < mid.len() && spec_synced(mid[j0], p) && mid[j0].id == p.id) by {
            match spec_find_id(items, p.id) {
                Some(j) => {
                    assert(mid == items.update(j, spec_patch(items[j], p)));
                },
                None => {},
            }
        }
        assert(!spec_id_in_parsed(rest, mid[j0].id)) by {
            if spec_id_in_parsed(rest, p.id) {
                let k = choose|k: int| 0 <= k < rest.len() && rest[k].id == p.id;
                assert(parsed[0].id != parsed[k + 1].id);
            }
        }
        assert(out[j0] == mid[j0]);
        assert(spec_find_id(out, p.id) == Some(j0)) by {
            lemma_find_id_props(out, p.id);
            assert(out[j0].id == p.id);
            match spec_find_id(out, p.id) {
                Some(f) => {
                    if f < j0 {
                        assert(out[f].id == mid[f].id);
                        lemma_find_id_props(mid, p.id);
                        lemma_id_lookup(mid, j0);
                        assert(spec_find_id(mid, p.id) == Some(j0));
                        assert(mid[f].id != p.id);
                    }
                    if f > j0 {
                        assert(out[j0].id != p.id);
                    }
                },
                None => {
                    assert(out[j0].id != p.id);
                },
            }
        }
        // Lift the remaining entries' sync facts and the id-provenance
        // facts from `mid` to `items`.
        assert forall|k: int|
            0 <= k < parsed.len() implies {
            let f = spec_find_id(out, (#[trigger] parsed[k]).id);
            &&& f is Some
            &&& 0 <= f->0 < out.len()
            &&& spec_synced(out[f->0], parsed[k])
        } by {
            if k > 0 {
                assert(rest[k - 1] == parsed[k]);
            }
        }
        assert forall|k: int|
            0 <= k < out.len() implies spec_find_id(items, (#[trigger] out[k]).id) is Some
            || spec_id_in_parsed(parsed, out[k].id) by {
            assert(spec_find_id(mid, out[k].id) is Some || spec_id_in_parsed(rest, out[k].id));
            if spec_find_id(mid, out[k].id) is Some {
                lemma_find_id_props(mid, out[k].id);
                let m = spec_find_id(mid, out[k].id)->0;
                match spec_find_id(items, p.id) {
                    Some(j) => {
                        assert(mid[m].id == items[m].id);
                        lemma_id_lookup(items, m);
                    },
                    None => {
                        if m < items.len() {
                            lemma_id_lookup(items, m);
                        } else {
                            assert(mid[m].id == p.id);
                            assert(spec_id_in_parsed(parsed, p.id)) by {
                                assert(parsed[0].id == p.id);
                            }
                        }
                    },
                }
            } else {
                let t = choose|t: int| 0 <= t < rest.len() && rest[t].id == out[k].id;
                assert(parsed[t + 1].id == out[k].id);
            }
        }
        assert forall|k: int|
            0 <= k < items.len() && !spec_id_in_parsed(parsed, items[k].id) implies out[k]
            == #[trigger] items[k] by {
            assert(!(parsed[0].id == items[k].id));
            match spec_find_id(items, p.id) {
                Some(j) => {
                    assert(j != k);
                    assert(mid[k] == items[k]);
                },
                None => {
                    assert(mid[k] == items[k]);
                },
            }
            assert(!spec_id_in_parsed(rest, mid[k].id)) by {
                if spec_id_in_parsed(rest, items[k].id) {
                    let t = choose|t: int| 0 <= t < rest.len() && rest[t].id == items[k].id;
                    assert(parsed[t + 1].id == items[k].id);
                }
            }
        }
        assert forall|k: int| 0 <= k < items.len() implies out[k].id == #[trigger] items[k].id by {
            assert(mid[k].id == items[k].id);
        }
    }
}

/// Folding a snapshot into items that are already synced with it leaves
/// them unchanged.
proof fn lemma_upsert_all_identity(items: Seq<ItemV>, parsed: Seq<ParsedV>)
    requires
        forall|k: int|
            0 <= k < parsed.len() ==> {
                let f = spec_find_id(items, (#[trigger] parsed[k]).id);
                &&& f is Some
                &&& 0 <= f->0 < items.len()
                &&& spec_synced(items[f->0], parsed[k])
            },
    ensures
        spec_upsert_all(items, parsed) == items,
    decreases parsed.len(),
{
    if parsed.len() > 0 {
        let p = parsed[0];
        let f = spec_find_id(items, p.id);
        let j = f->0;
        assert(spec_synced(items[j], p));
        assert(spec_patch(items[j], p) == items[j]);
        assert(spec_upsert_one(items, p) =~= items);
        let rest = parsed.drop_first();
        assert forall|k: int|
            0 <= k < rest.len() implies {
            let ff = spec_find_id(items, (#[trigger] rest[k]).id);
            &&& ff is Some
            &&& 0 <= ff->0 < items.len()
            &&& spec_synced(items[ff->0], rest[k])
        } by {
            assert(rest[k] == parsed[k + 1]);
        }
        lemma_upsert_all_identity(items, rest);
    }
}

/// Filtering keeps everything when the snapshot carries every item's
/// identifier.
proof fn lemma_filter_keep_all(items: Seq<ItemV>, parsed: Seq<ParsedV>)
    requires
        forall|k: int| 0 <= k < items.len() ==> spec_id_in_parsed(parsed, (#[trigger] items[k]).id),
    ensures
        spec_filter_kept(items, parsed) == items,
    decreases items.len(),
{
    if items.len() > 0 {
        let rest = items.drop_first();
        assert forall|k: int|
            0 <= k < rest.len() implies spec_id_in_parsed(parsed, (#[trigger] rest[k]).id) by {
            assert(rest[k] == items[k + 1]);
        }
        lemma_filter_keep_all(rest, parsed);
        assert(seq![items[0]].add(rest) =~= items);
    }
}

/// What the removal phase leaves as selection: always a valid index
/// into the surviving items, or none.
proof fn lemma_remove_sel_bounds(items: Seq<ItemV>, parsed: Seq<ParsedV>, sel: Option<usize>)
    requires
        sel matches Some(s) ==> (s as int) < items.len(),
    ensures
        match spec_remove_sel(items, parsed, sel) {
            Some(k) => 0 <= k < spec_filter_kept(items, parsed).len(),
            None => true,
        },
{
    match sel {
        Some(s) => {
            let pre = items.subrange(0, s as int);
            let post = items.subrange(s as int, items.len() as int);
            assert(items =~= pre.add(post));
            lemma_filter_concat(pre, post, parsed);
            let kb = spec_filter_kept(pre, parsed).len() as int;
            if spec_id_in_parsed(parsed, items[s as int].id) {
                assert(post[0] == items[s as int]);
                assert(spec_filter_kept(post, parsed).len() >= 1);
            }
        },
        None => {},
    }
}

/// Idempotent reconciliation law: for any snapshot, reconciling it a
/// second time leaves exactly the registry state the first
/// reconciliation produced — removals find nothing left to remove,
/// patches rewrite the values already in place, no item is appended
/// twice, the selection stays where it was, and re-sorting an
/// already-sorted list moves nothing.
pub proof fn lemma_reconcile_idempotent(r: RegV, parsed: Seq<ParsedV>)
    requires
        reg_wf(r),
        parsed_ids_unique(parsed),
        r.items.len() + parsed.len() <= usize::MAX,
    ensures
        spec_reconcile(spec_reconcile(r, parsed), parsed) == spec_reconcile(r, parsed),
{
    broadcast use vstd::seq_lib::group_to_multiset_ensures;

    let r1 = spec_reconcile(r, parsed);
    let sel1 = spec_remove_sel(r.items, parsed, r.sel);
    let items1 = spec_filter_kept(r.items, parsed);
    let items2 = spec_upsert_all(items1, parsed);
    let items3: Seq<ItemV> = if r.items.len() == 0 {
        spec_sort_items(None, items2)
    } else {
        items2
    };
    let sel3: Option<usize> = if sel1 is None && items3.len() > 0 {
        Some(0usize)
    } else {
        match sel1 {
            Some(k) => Some(k as usize),
            None => None,
        }
    };
    lemma_filter_wf(r.items, parsed);
    lemma_remove_sel_bounds(r.items, parsed, r.sel);
    lemma_upsert_all_props(items1, parsed);
    if r.items.len() == 0 {
        lemma_sort_items_multiset(None, items2);
        lemma_sort_items_len(None, items2);
        lemma_sort_ids_unique(None, items2);
    }
    // Every identifier in items3 occurs in the snapshot, identifiers are
    // unique, and every snapshot entry is synced into items3.
    assert(ids_unique(items3));
    assert(items3.len() == items2.len());
    assert forall|k: int|
        0 <= k < items3.len() implies spec_id_in_parsed(parsed, (#[trigger] items3[k]).id) by {
        if r.items.len() == 0 {
            assert(items3.contains(items3[k]));
            assert(items2.to_multiset().count(items3[k]) > 0);
            assert(items2.contains(items3[k]));
            let m = choose|m: int| 0 <= m < items2.len() && items2[m] == items3[k];
            assert(spec_find_id(items1, items2[m].id) is Some || spec_id_in_parsed(
                parsed,
                items2[m].id,
            ));
            if spec_find_id(items1, items2[m].id) is Some {
                lemma_find_id_props(items1, items2[m].id);
                let f = spec_find_id(items1, items2[m].id)->0;
                lemma_filter_contains_kept(r.items, parsed, f);
            }
        } else {
            assert(spec_find_id(items1, items2[k].id) is Some || spec_id_in_parsed(
                parsed,
                items2[k].id,
            ));
            if spec_find_id(items1, items2[k].id) is Some {
                lemma_find_id_props(items1, items2[k].id);
                let f = spec_find_id(items1, items2[k].id)->0;
                lemma_filter_contains_kept(r.items, parsed, f);
            }
        }
    }
    assert forall|k: int|
        0 <= k < parsed.len() implies {
        let f = spec_find_id(items3, (#[trigger] parsed[k]).id);
        &&& f is Some
        &&& 0 <= f->0 < items3.len()
        &&& spec_synced(items3[f->0], parsed[k])
    } by {
        let f2 = spec_find_id(items2, parsed[k].id);
        assert(f2 is Some && spec_synced(items2[f2->0], parsed[k]));
        if r.items.len() == 0 {
            let x = items2[f2->0];
            assert(items2.contains(x));
            assert(items3.to_multiset().count(x) > 0);
            assert(items3.contains(x));
            let m = choose|m: int| 0 <= m < items3.len() && items3[m] == x;
            lemma_id_lookup(items3, m);
        }
    }
    // The first round's items and selection, per sort setting.
    let (final_items, final_sel): (Seq<ItemV>, Option<usize>) = match r.sorted {
        None => (items3, sel3),
        Some(sb) => {
            let prev = match sel3 {
                Some(s) => if (s as int) < items3.len() {
                    Some(items3[s as int].id)
                } else {
                    None
                },
                None => None,
            };
            let items4 = spec_sort_items(Some(sb), items3);
            (items4, spec_rebind_sel(items4, prev))
        },
    };
    assert(r1.items == final_items && r1.sel == final_sel && r1.sorted == r.sorted && r1.args
        == r.args);
    // The same three facts carry to the first round's final items.
    if r.sorted is Some {
        let sb = r.sorted->0;
        lemma_sort_items_multiset(Some(sb), items3);
        lemma_sort_items_len(Some(sb), items3);
        lemma_sort_ids_unique(Some(sb), items3);
    }
    assert(ids_unique(final_items));
    assert(final_items.len() == items3.len());
    assert forall|k: int|
        0 <= k < final_items.len() implies spec_id_in_parsed(
        parsed,
        (#[trigger] final_items[k]).id,
    ) by {
        if r.sorted is Some {
            assert(final_items.contains(final_items[k]));
            assert(items3.to_multiset().count(final_items[k]) > 0);
            assert(items3.contains(final_items[k]));
            let m = choose|m: int| 0 <= m < items3.len() && items3[m] == final_items[k];
        }
    }
    assert forall|k: int|
        0 <= k < parsed.len() implies {
        let f = spec_find_id(final_items, (#[trigger] parsed[k]).id);
        &&& f is Some
        &&& 0 <= f->0 < final_items.len()
        &&& spec_synced(final_items[f->0], parsed[k])
    } by {
        let f3 = spec_find_id(items3, parsed[k].id);
        if r.sorted is Some {
            let x = items3[f3->0];
            assert(items3.contains(x));
            assert(final_items.to_multiset().count(x) > 0);
            assert(final_items.contains(x));
            let m = choose|m: int| 0 <= m < final_items.len() && final_items[m] == x;
            lemma_id_lookup(final_items, m);
        }
    }
    // The first round leaves a selection exactly when it leaves items.
    assert(final_sel is None ==> final_items.len() == 0) by {
        if r.sorted is Some {
            let sb = r.sorted->0;
            match sel3 {
                Some(s) => {
                    if (s as int) < items3.len() {
                        let id = items3[s as int].id;
                        let x = items3[s as int];
                        assert(items3.contains(x));
                        assert(final_items.to_multiset().count(x) > 0);
                        assert(final_items.contains(x));
                        let m = choose|m: int|
                            0 <= m < final_items.len() && final_items[m] == x;
                        lemma_find_id_props(final_items, id);
                        if spec_find_id(final_items, id) is None {
                            assert(final_items[m].id != id);
                        }
                    }
                },
                None => {
                    assert(items3.len() == 0);
                },
            }
        }
    }
    assert(final_sel matches Some(s) ==> (s as int) < final_items.len()) by {
        match sel1 {
            Some(k) => {
                assert(0 <= k < items1.len());
            },
            None => {},
        }
        if r.sorted is Some && final_sel is Some {
            lemma_find_id_props(
                final_items,
                match sel3 {
                    Some(s) => if (s as int) < items3.len() {
                        items3[s as int].id
                    } else {
                        Seq::<char>::empty()
                    },
                    None => Seq::<char>::empty(),
                },
            );
        }
    }
    // Second round: nothing is removed, the selection stays put.
    lemma_filter_keep_all(final_items, parsed);
    assert(spec_filter_kept(r1.items, parsed) == r1.items);
    let sel1b = spec_remove_sel(r1.items, parsed, r1.sel);
    assert(match r1.sel {
        Some(s) => sel1b == Some(s as int),
        None => sel1b is None,
    }) by {
        match r1.sel {
            Some(s) => {
                let pre = final_items.subrange(0, s as int);
                assert(forall|k: int|
                    0 <= k < pre.len() ==> spec_id_in_parsed(parsed, (#[trigger] pre[k]).id));
                lemma_filter_keep_all(pre, parsed);
                assert(spec_id_in_parsed(parsed, final_items[s as int].id));
            },
            None => {},
        }
    }
    // Second round: patching rewrites values already in place.
    lemma_upsert_all_identity(final_items, parsed);
    assert(spec_upsert_all(r1.items, parsed) == r1.items);
    let items3b: Seq<ItemV> = if r1.items.len() == 0 {
        spec_sort_items(None, r1.items)
    } else {
        r1.items
    };
    assert(items3b == r1.items) by {
        if r1.items.len() == 0 {
            assert(spec_sort_items(None, r1.items) == r1.items);
        }
    }
    let sel3b: Option<usize> = if sel1b is None && items3b.len() > 0 {
        Some(0usize)
    } else {
        match sel1b {
            Some(k) => Some(k as usize),
            None => None,
        }
    };
    assert(sel3b == r1.sel);
    // Second round: sorting what is already sorted moves nothing, and
    // the selection rebinds to its own index.
    match r.sorted {
        None => {
            assert(spec_reconcile(r1, parsed) == r1);
        },
        Some(sb) => {
            lemma_sort_items_sorted(Some(sb), items3);
            lemma_sort_items_of_sorted(Some(sb), r1.items);
            assert(spec_sort_items(Some(sb), items3b) == r1.items);
            match sel3b {
                Some(s) => {
                    assert((s as int) < r1.items.len());
                    lemma_id_lookup(r1.items, s as int);
                    assert(spec_rebind_sel(r1.items, Some(r1.items[s as int].id)) == Some(s));
                },
                None => {
                    assert(spec_rebind_sel(r1.items, None) is None);
                },
            }
            assert(spec_reconcile(r1, parsed) == r1);
        },
    }
}

/// Every surviving item is one of the originals, and its identifier is
/// carried by the snapshot.
pub proof fn lemma_filter_contains_kept(items: Seq<ItemV>, parsed: Seq<ParsedV>, k: int)
    requires
        0 <= k < spec_filter_kept(items, parsed).len(),
    ensures
        items.contains(spec_filter_kept(items, parsed)[k]),
        spec_id_in_parsed(parsed, spec_filter_kept(items, parsed)[k].id),
    decreases items.len(),
{
    if items.len() > 0 {
        let rest = items.drop_first();
        if spec_id_in_parsed(parsed, items[0].id) {
            if k == 0 {
                assert(items[0] == spec_filter_kept(items, parsed)[0]);
            } else {
                lemma_filter_contains_kept(rest, parsed, k - 1);
                let x = spec_filter_kept(rest, parsed)[k - 1];
                let m = choose|m: int| 0 <= m < rest.len() && rest[m] == x;
                assert(items[m + 1] == x);
            }
        } else {
            lemma_filter_contains_kept(rest, parsed, k);
            let x = spec_filter_kept(rest, parsed)[k];
            let m = choose|m: int| 0 <= m < rest.len() && rest[m] == x;
            assert(items[m + 1] == x);
        }
    }
}

/// Selection survives sorting: whatever sort is applied, the container
/// that was selected before remains selected after, whatever its new
/// index.
pub proof fn lemma_selection_survives_sort(r: RegV, x: Option<(Header, SortedOrder)>)
    requires
        reg_wf(r),
        r.items.len() <= usize::MAX,
        r.sel is Some,
    ensures
        ({
            let r2 = spec_set_sorted(r, x);
            &&& r2.sel is Some
            &&& (r2.sel->0 as int) < r2.items.len()
            &&& r2.items[r2.sel->0 as int].id == r.items[r.sel->0 as int].id
        }),
{
    broadcast use vstd::seq_lib::group_to_multiset_ensures;

    let s = r.sel->0 as int;
    let id = r.items[s].id;
    let items2 = spec_sort_items(x, r.items);
    lemma_sort_items_contains(x, r.items, r.items[s]);
    assert(r.items.contains(r.items[s]));
    assert(items2.contains(r.items[s]));
    lemma_find_id_props(items2, id);
    lemma_sort_items_len(x, r.items);
    if spec_find_id(items2, id) is None {
        let m = choose|m: int| 0 <= m < items2.len() && items2[m] == r.items[s];
        assert(items2[m].id == id);
    }
}

} // verus!

