//! The alias and automation lists of the terminal edition: which entries a
//! search and a filter show, in which order, the group view of the
//! automations with its headers, and how the selection skips the headers.

use vstd::prelude::*;
use crate::text;
use crate::order;
use crate::listing;
use crate::tui_forms;
use crate::text::{chars_of, contains_chars, string_of, to_lowercase, trim_chars};
use crate::order::{Ordered, sort_in_order, text_less};
use crate::message::{concat2, owned, str_eq};
use crate::automation::Automation;
use crate::alias_entry::AliasEntry;
use crate::listing::{alias_matches_filter, automation_matches_filter};
use crate::tui_keys::cycle;

verus! {

/// Positions as integers.
pub open spec fn ints(v: Seq<usize>) -> Seq<int> {
    v.map_values(|i: usize| i as int)
}

/// An entry as the lists sort them: favorites first, then by name,
/// ignoring case.
pub struct Ranked {
    pub index: usize,
    pub favorite: bool,
    pub name: String,
}

impl Ordered for Ranked {
    open spec fn goes_before(&self, other: &Self) -> bool {
        (self.favorite && !other.favorite) || (self.favorite == other.favorite
            && order::text_before(text::lowercase(self.name@), text::lowercase(other.name@)))
    }

    fn before(&self, other: &Self) -> (r: bool) {
        if self.favorite != other.favorite {
            return self.favorite;
        }
        let a = to_lowercase(self.name.as_str());
        let b = to_lowercase(other.name.as_str());
        let a = chars_of(a.as_str());
        let b = chars_of(b.as_str());
        text_less(&a, &b)
    }

    proof fn lemma_asymmetric(a: Self, b: Self) {
        if a.favorite == b.favorite {
            order::lemma_text_before_asymmetric(text::lowercase(a.name@), text::lowercase(b.name@));
        }
    }

    proof fn lemma_negatively_transitive(a: Self, b: Self, c: Self) {
        if a.favorite == c.favorite && b.favorite == a.favorite {
            order::lemma_text_before_negatively_transitive(
                text::lowercase(a.name@),
                text::lowercase(b.name@),
                text::lowercase(c.name@),
            );
        }
    }
}

/// Whether an automation matches a search (already trimmed and in
/// lowercase): its name, directory, group or one of its commands holds it.
/// An empty search matches everything.
pub open spec fn query_matches(a: Automation, q: Seq<char>) -> bool {
    q.len() == 0 || text::contains(text::lowercase(a.name@), q) || text::contains(
        text::lowercase(a.path@),
        q,
    ) || text::contains(text::lowercase(a.group@), q) || exists|i: int|
        0 <= i < a.steps@.len() && (#[trigger] a.steps@[i]).kind@ == "command"@ && text::contains(
            text::lowercase(a.steps@[i].command@),
            q,
        )
}

fn lower_contains(s: &str, q: &Vec<char>) -> (r: bool)
    ensures
        r == text::contains(text::lowercase(s@), q@),
{
    let l = to_lowercase(s);
    let v = chars_of(l.as_str());
    contains_chars(&v, q)
}

fn matches_query(a: &Automation, q: &Vec<char>) -> (r: bool)
    ensures
        r == query_matches(*a, q@),
{
    if q.len() == 0 {
        return true;
    }
    if lower_contains(a.name.as_str(), q) || lower_contains(a.path.as_str(), q) || lower_contains(
        a.group.as_str(),
        q,
    ) {
        return true;
    }
    let mut i: usize = 0;
    while i < a.steps.len()
        invariant
            i <= a.steps.len(),
            forall|j: int|
                0 <= j < i ==> !((#[trigger] a.steps@[j]).kind@ == "command"@ && text::contains(
                    text::lowercase(a.steps@[j].command@),
                    q@,
                )),
        decreases a.steps.len() - i,
    {
        if str_eq(a.steps[i].kind.as_str(), "command") && lower_contains(
            a.steps[i].command.as_str(),
            q,
        ) {
            return true;
        }
        i = i + 1;
    }
    false
}

/// Whether the list shows an automation under a filter and a search.
pub open spec fn shown(a: Automation, filter: Seq<char>, q: Seq<char>) -> bool {
    listing::automation_shown(a, filter) && query_matches(a, q)
}

/// The positions below `n` of the automations shown, in list order.
pub open spec fn shown_below(autos: Seq<Automation>, filter: Seq<char>, q: Seq<char>, n: int) -> Seq<
    int,
>
    decreases n,
{
    if n <= 0 {
        Seq::empty()
    } else {
        let s = shown_below(autos, filter, q, n - 1);
        if shown(autos[n - 1], filter, q) {
            s.push(n - 1)
        } else {
            s
        }
    }
}

/// The automations at the given positions, as the list sorts them.
pub open spec fn ranks(autos: Seq<Automation>, idx: Seq<int>) -> Seq<Ranked> {
    idx.map_values(|i: int| Ranked { index: i as usize, favorite: autos[i].favorite, name: autos[i].name })
}

/// The positions of the automations shown, favorites first and then by
/// name ignoring case; equal ones keep their order.
pub open spec fn listed(autos: Seq<Automation>, filter: Seq<char>, q: Seq<char>) -> Seq<int> {
    order::in_order(ranks(autos, shown_below(autos, filter, q, autos.len() as int))).map_values(
        |r: Ranked| r.index as int,
    )
}

/// A row of the automation list.
pub enum AutomationRow {
    /// A group header: its title and how many automations follow.
    Header(String, usize),
    /// The automation at this position.
    Item(usize),
}

/// A row as the contracts see it.
pub enum RowView {
    Header(Seq<char>, int),
    Item(int),
}

/// A row as the contracts see it.
pub open spec fn row_view(r: AutomationRow) -> RowView {
    match r {
        AutomationRow::Header(t, n) => RowView::Header(t@, n as int),
        AutomationRow::Item(i) => RowView::Item(i as int),
    }
}

/// The rows as the contracts see them.
pub open spec fn row_views(rows: Seq<AutomationRow>) -> Seq<RowView> {
    rows.map_values(|r: AutomationRow| row_view(r))
}

/// The title of a group header: the group, or `Ungrouped`.
pub open spec fn group_title(g: Seq<char>) -> Seq<char> {
    if g.len() == 0 {
        "Ungrouped"@
    } else {
        g
    }
}

/// The listed automations of a group (trimmed), in list order.
pub open spec fn members(autos: Seq<Automation>, sorted: Seq<int>, g: Seq<char>) -> Seq<int> {
    sorted.filter(|i: int| text::trim(autos[i].group@) == g)
}

/// Items for the given positions.
pub open spec fn items(idx: Seq<int>) -> Seq<RowView> {
    idx.map_values(|i: int| RowView::Item(i))
}

/// The group view: for each group in turn, a header and its automations;
/// groups without a listed automation are left out.
pub open spec fn grouped(autos: Seq<Automation>, sorted: Seq<int>, groups: Seq<Seq<char>>) -> Seq<
    RowView,
>
    decreases groups.len(),
{
    if groups.len() == 0 {
        Seq::empty()
    } else {
        grouped(autos, sorted, groups.drop_last()) + group_block(autos, sorted, groups.last())
    }
}

/// The rows of one group: its header and its automations, none where it
/// has no listed automation.
pub open spec fn group_block(autos: Seq<Automation>, sorted: Seq<int>, g: Seq<char>) -> Seq<RowView> {
    let m = members(autos, sorted, g);
    if m.len() == 0 {
        Seq::empty()
    } else {
        seq![RowView::Header(group_title(g), m.len() as int)] + items(m)
    }
}

/// The rows of the list: the listed automations, or under the `groups`
/// filter the group view over the given groups and then the ungrouped
/// ones.
pub open spec fn rows_of(
    autos: Seq<Automation>,
    filter: Seq<char>,
    q: Seq<char>,
    groups: Seq<Seq<char>>,
) -> Seq<RowView> {
    let sorted = listed(autos, filter, q);
    if filter != "groups"@ {
        items(sorted)
    } else {
        grouped(autos, sorted, groups.push(Seq::empty()))
    }
}

proof fn lemma_auto_shown_below_members(autos: Seq<Automation>, filter: Seq<char>, q: Seq<char>, n: int, i: int)
    requires
        0 <= n <= autos.len(),
    ensures
        shown_below(autos, filter, q, n).contains(i) <==> (0 <= i < n && shown(autos[i], filter, q)),
    decreases n,
{
    if n > 0 {
        lemma_auto_shown_below_members(autos, filter, q, n - 1, i);
        let prev = shown_below(autos, filter, q, n - 1);
        let cur = shown_below(autos, filter, q, n);
        if shown(autos[n - 1], filter, q) {
            assert(cur == prev.push(n - 1));
            if cur.contains(i) {
                let k = choose|k: int| 0 <= k < cur.len() && cur[k] == i;
                if k < prev.len() {
                    assert(prev[k] == i);
                }
            }
            if 0 <= i < n && shown(autos[i], filter, q) {
                if i == n - 1 {
                    assert(cur[cur.len() - 1] == i);
                } else {
                    let k = choose|k: int| 0 <= k < prev.len() && prev[k] == i;
                    assert(cur[k] == i);
                }
            }
        } else {
            assert(cur == prev);
        }
    } else {
        let cur = shown_below(autos, filter, q, n);
        assert(cur.len() == 0);
    }
}

/// The automation list holds exactly the automations that pass the filter
/// and whose name, directory, group or one of whose commands, in lower
/// case, holds the search (trimmed and in lower case; a blank search holds
/// for all). Outside the group view the rows are those automations, one
/// row each.
pub proof fn lemma_listed_members(autos: Seq<Automation>, filter: Seq<char>, search: Seq<char>, i: int)
    requires
        autos.len() <= usize::MAX,
    ensures
        ({
            let q = text::lowercase(text::trim(search));
            listed(autos, filter, q).contains(i) <==> (0 <= i < autos.len()
                && listing::automation_shown(autos[i], filter) && (q.len() == 0 || text::contains(
                text::lowercase(autos[i].name@),
                q,
            ) || text::contains(text::lowercase(autos[i].path@), q) || text::contains(
                text::lowercase(autos[i].group@),
                q,
            ) || exists|j: int|
                0 <= j < autos[i].steps@.len() && (#[trigger] autos[i].steps@[j]).kind@ == "command"@
                    && text::contains(text::lowercase(autos[i].steps@[j].command@), q)))
        }),
        forall|groups: Seq<Seq<char>>|
            filter != "groups"@ ==> (#[trigger] rows_of(
                autos,
                filter,
                text::lowercase(text::trim(search)),
                groups,
            )).contains(RowView::Item(i)) == listed(autos, filter, text::lowercase(text::trim(search))).contains(i),
{
    broadcast use vstd::seq_lib::group_to_multiset_ensures;

    let q = text::lowercase(text::trim(search));
    let n = autos.len() as int;
    let idx = shown_below(autos, filter, q, n);
    let rk = ranks(autos, idx);
    let sorted = order::in_order(rk);
    order::lemma_in_order_multiset(rk);
    let v = listed(autos, filter, q);
    assert(v == sorted.map_values(|r: Ranked| r.index as int));
    if v.contains(i) {
        let k = choose|k: int| 0 <= k < v.len() && v[k] == i;
        let x = sorted[k];
        assert(sorted.contains(x));
        assert(sorted.to_multiset().count(x) > 0);
        assert(rk.contains(x));
        let j = choose|j: int| 0 <= j < rk.len() && rk[j] == x;
        assert(idx.contains(idx[j]));
        lemma_auto_shown_below_members(autos, filter, q, n, idx[j]);
        assert(x.index == idx[j] as usize);
        assert(i == idx[j]);
    }
    if 0 <= i < n && shown(autos[i], filter, q) {
        lemma_auto_shown_below_members(autos, filter, q, n, i);
        assert(idx.contains(i));
        let j = choose|j: int| 0 <= j < idx.len() && idx[j] == i;
        let x = rk[j];
        assert(rk.contains(x));
        assert(rk.to_multiset().count(x) > 0);
        assert(sorted.contains(x));
        let k = choose|k: int| 0 <= k < sorted.len() && sorted[k] == x;
        assert(v[k] == x.index as int);
        assert(v.contains(i));
    }
    assert forall|groups: Seq<Seq<char>>|
        filter != "groups"@ implies (#[trigger] rows_of(autos, filter, q, groups)).contains(RowView::Item(i))
            == v.contains(i) by {
        let rows = rows_of(autos, filter, q, groups);
        assert(rows == items(v));
        if rows.contains(RowView::Item(i)) {
            let k = choose|k: int| 0 <= k < rows.len() && rows[k] == RowView::Item(i);
            assert(v[k] == i);
        }
        if v.contains(i) {
            let k = choose|k: int| 0 <= k < v.len() && v[k] == i;
            assert(rows[k] == RowView::Item(i));
        }
    }
}

fn listed_positions(autos: &Vec<Automation>, filter: &str, q: &Vec<char>) -> (r: Vec<usize>)
    ensures
        ints(r@) == listed(autos@, filter@, q@),
        forall|k: int| 0 <= k < r@.len() ==> #[trigger] r@[k] < autos@.len(),
{
    let mut ranked: Vec<Ranked> = Vec::new();
    let mut i: usize = 0;
    while i < autos.len()
        invariant
            i <= autos.len(),
            ranked@ == ranks(autos@, shown_below(autos@, filter@, q@, i as int)),
        decreases autos.len() - i,
    {
        let a = &autos[i];
        if automation_matches_filter(a, filter) && matches_query(a, q) {
            ranked.push(Ranked { index: i, favorite: a.favorite, name: a.name.clone() });
            assert(ranked@ =~= ranks(autos@, shown_below(autos@, filter@, q@, i + 1)));
        } else {
            assert(ranked@ =~= ranks(autos@, shown_below(autos@, filter@, q@, i + 1)));
        }
        i = i + 1;
    }
    let ghost before = ranked@;
    proof {
        lemma_shown_below_bounds(autos@, filter@, q@, autos@.len() as int);
    }
    sort_in_order(&mut ranked);
    proof {
        order::lemma_in_order_multiset(before);
    }
    let mut r: Vec<usize> = Vec::new();
    let mut k: usize = 0;
    while k < ranked.len()
        invariant
            k <= ranked.len(),
            ranked@ == order::in_order(before),
            before == ranks(autos@, shown_below(autos@, filter@, q@, autos@.len() as int)),
            ranked@.to_multiset() == before.to_multiset(),
            forall|j: int| 0 <= j < before.len() ==> #[trigger] before[j].index < autos@.len(),
            ints(r@) == ranked@.take(k as int).map_values(
                |x: Ranked| x.index as int,
            ),
            forall|j: int| 0 <= j < r@.len() ==> #[trigger] r@[j] < autos@.len(),
        decreases ranked.len() - k,
    {
        proof {
            broadcast use vstd::seq_lib::group_to_multiset_ensures;
            let x = ranked@[k as int];
            assert(ranked@.contains(x));
            assert(ranked@.to_multiset().count(x) > 0);
            assert(before.to_multiset().count(x) > 0);
            assert(before.contains(x));
        }
        let ghost old_r = r@;
        r.push(ranked[k].index);
        assert(r@ == old_r.push(ranked@[k as int].index));
        assert(ranked@.take(k + 1) =~= ranked@.take(k as int).push(ranked@[k as int]));
        assert(ints(r@) =~= ints(old_r).push(
            ranked@[k as int].index as int,
        ));
        assert(ranked@.take(k + 1).map_values(|x: Ranked| x.index as int) =~= ranked@.take(
            k as int,
        ).map_values(|x: Ranked| x.index as int).push(ranked@[k as int].index as int));
        k = k + 1;
    }
    assert(ranked@.take(ranked@.len() as int) =~= ranked@);
    r
}

proof fn lemma_shown_below_bounds(autos: Seq<Automation>, filter: Seq<char>, q: Seq<char>, n: int)
    requires
        n <= autos.len(),
        autos.len() <= usize::MAX,
    ensures
        forall|j: int|
            0 <= j < shown_below(autos, filter, q, n).len() ==> 0 <= #[trigger] shown_below(
                autos,
                filter,
                q,
                n,
            )[j] < n,
        forall|j: int|
            0 <= j < ranks(autos, shown_below(autos, filter, q, n)).len() ==> #[trigger] ranks(
                autos,
                shown_below(autos, filter, q, n),
            )[j].index < autos.len(),
    decreases n,
{
    if n > 0 {
        lemma_shown_below_bounds(autos, filter, q, n - 1);
        let s = shown_below(autos, filter, q, n - 1);
        let t = shown_below(autos, filter, q, n);
        assert forall|j: int| 0 <= j < t.len() implies 0 <= #[trigger] t[j] < n by {
            if j < s.len() {
                assert(t[j] == s[j]);
            }
        }
    }
}


fn group_members(autos: &Vec<Automation>, sorted: &Vec<usize>, g: &Vec<char>) -> (r: Vec<usize>)
    requires
        forall|k: int| 0 <= k < sorted@.len() ==> #[trigger] sorted@[k] < autos@.len(),
    ensures
        ints(r@) == members(
            autos@,
            ints(sorted@),
            g@,
        ),
        forall|k: int| 0 <= k < r@.len() ==> #[trigger] r@[k] < autos@.len(),
{
    let ghost all = ints(sorted@);
    let ghost p = |i: int| text::trim(autos@[i].group@) == g@;
    let mut r: Vec<usize> = Vec::new();
    let mut j: usize = 0;
    assert(all.take(0).filter(p) =~= Seq::empty()) by {
        reveal(Seq::filter);
    }
    while j < sorted.len()
        invariant
            j <= sorted.len(),
            all == ints(sorted@),
            p == (|i: int| text::trim(autos@[i].group@) == g@),
            forall|k: int| 0 <= k < sorted@.len() ==> #[trigger] sorted@[k] < autos@.len(),
            ints(r@) == all.take(j as int).filter(p),
            forall|k: int| 0 <= k < r@.len() ==> #[trigger] r@[k] < autos@.len(),
        decreases sorted.len() - j,
    {
        let i = sorted[j];
        let t = trim_chars(&chars_of(autos[i].group.as_str()));
        proof {
            assert(all.take(j + 1) =~= all.take(j as int).push(all[j as int]));
            all.take(j as int).lemma_filter_push(all[j as int], p);
        }
        let ghost old_r = r@;
        if crate::text::eq_chars(&t, g) {
            r.push(i);
            assert(ints(r@) =~= ints(old_r).push(
                i as int,
            ));
        }
        j = j + 1;
    }
    assert(all.take(sorted@.len() as int) =~= all);
    r
}

fn push_item(rows: &mut Vec<AutomationRow>, i: usize)
    ensures
        row_views(final(rows)@) == row_views(old(rows)@).push(RowView::Item(i as int)),
{
    rows.push(AutomationRow::Item(i));
    assert(row_views(rows@) =~= row_views(old(rows)@).push(RowView::Item(i as int)));
}

fn push_group(
    rows: &mut Vec<AutomationRow>,
    autos: &Vec<Automation>,
    sorted: &Vec<usize>,
    g: &Vec<char>,
)
    requires
        forall|k: int| 0 <= k < sorted@.len() ==> #[trigger] sorted@[k] < autos@.len(),
    ensures
        row_views(final(rows)@) == row_views(old(rows)@) + group_block(
            autos@,
            ints(sorted@),
            g@,
        ),
{
    let m = group_members(autos, sorted, g);
    let ghost before = row_views(rows@);
    let ghost mints = ints(m@);
    if m.len() == 0 {
        assert(row_views(rows@) =~= before + Seq::<RowView>::empty());
        return;
    }
    let title = if g.len() == 0 {
        owned("Ungrouped")
    } else {
        string_of(g)
    };
    rows.push(AutomationRow::Header(title, m.len()));
    let ghost head = seq![RowView::Header(group_title(g@), m@.len() as int)];
    assert(row_views(rows@) =~= before + head + items(mints.take(0)));
    let mut j: usize = 0;
    while j < m.len()
        invariant
            j <= m.len(),
            mints == ints(m@),
            row_views(rows@) == before + head + items(mints.take(j as int)),
        decreases m.len() - j,
    {
        push_item(rows, m[j]);
        assert(items(mints.take(j + 1)) =~= items(mints.take(j as int)).push(RowView::Item(
            m@[j as int] as int,
        )));
        assert(row_views(rows@) =~= before + head + items(mints.take(j + 1)));
        j = j + 1;
    }
    assert(mints.take(m@.len() as int) =~= mints);
}

/// The rows of the automation list for a filter and a search, with the
/// given groups in the group view (as `automation_groups` lists them).
pub fn automation_rows(autos: &Vec<Automation>, filter: &str, search: &str, groups: &Vec<String>) -> (r:
    Vec<AutomationRow>)
    ensures
        row_views(r@) == rows_of(
            autos@,
            filter@,
            text::lowercase(text::trim(search@)),
            tui_forms::texts(groups@),
        ),
{
    let trimmed = string_of(&trim_chars(&chars_of(search)));
    let q = chars_of(to_lowercase(trimmed.as_str()).as_str());
    let sorted = listed_positions(autos, filter, &q);
    let ghost sorted_ints = ints(sorted@);
    let mut rows: Vec<AutomationRow> = Vec::new();
    if !str_eq(filter, "groups") {
        let mut k: usize = 0;
        assert(row_views(rows@) =~= items(sorted_ints.take(0)));
        while k < sorted.len()
            invariant
                k <= sorted.len(),
                sorted_ints == ints(sorted@),
                row_views(rows@) == items(sorted_ints.take(k as int)),
            decreases sorted.len() - k,
        {
            push_item(&mut rows, sorted[k]);
            assert(items(sorted_ints.take(k + 1)) =~= items(sorted_ints.take(k as int)).push(
                RowView::Item(sorted@[k as int] as int),
            ));
            k = k + 1;
        }
        assert(sorted_ints.take(sorted@.len() as int) =~= sorted_ints);
        return rows;
    }
    let ghost gs = tui_forms::texts(groups@);
    let mut k: usize = 0;
    assert(row_views(rows@) =~= grouped(autos@, sorted_ints, gs.take(0)));
    while k < groups.len()
        invariant
            k <= groups.len(),
            gs == tui_forms::texts(groups@),
            sorted_ints == ints(sorted@),
            forall|j: int| 0 <= j < sorted@.len() ==> #[trigger] sorted@[j] < autos@.len(),
            row_views(rows@) == grouped(autos@, sorted_ints, gs.take(k as int)),
        decreases groups.len() - k,
    {
        let g = chars_of(groups[k].as_str());
        assert(gs.take(k + 1).drop_last() =~= gs.take(k as int));
        push_group(&mut rows, autos, &sorted, &g);
        k = k + 1;
    }
    assert(gs.take(groups@.len() as int) =~= gs);
    let empty: Vec<char> = Vec::new();
    push_group(&mut rows, autos, &sorted, &empty);
    assert(gs.push(Seq::<char>::empty()).drop_last() =~= gs);
    assert(empty@ =~= Seq::<char>::empty());
    rows
}


/// A group name as the group list sorts it: by name, ignoring case.
pub struct GroupName {
    pub name: String,
}

impl Ordered for GroupName {
    open spec fn goes_before(&self, other: &Self) -> bool {
        order::text_before(text::lowercase(self.name@), text::lowercase(other.name@))
    }

    fn before(&self, other: &Self) -> (r: bool) {
        let a = to_lowercase(self.name.as_str());
        let b = to_lowercase(other.name.as_str());
        let a = chars_of(a.as_str());
        let b = chars_of(b.as_str());
        text_less(&a, &b)
    }

    proof fn lemma_asymmetric(a: Self, b: Self) {
        order::lemma_text_before_asymmetric(text::lowercase(a.name@), text::lowercase(b.name@));
    }

    proof fn lemma_negatively_transitive(a: Self, b: Self, c: Self) {
        order::lemma_text_before_negatively_transitive(
            text::lowercase(a.name@),
            text::lowercase(b.name@),
            text::lowercase(c.name@),
        );
    }
}

/// The groups that automations are in: each group name, trimmed, that is
/// not empty.
pub open spec fn named_groups(autos: Seq<Automation>) -> Set<Seq<char>> {
    Set::new(
        |g: Seq<char>|
            g.len() > 0 && exists|i: int| 0 <= i < autos.len() && text::trim(#[trigger] autos[i].group@) == g,
    )
}

/// The names of the group list.
pub open spec fn group_texts(v: Seq<GroupName>) -> Seq<Seq<char>> {
    v.map_values(|g: GroupName| g.name@)
}

proof fn lemma_sorted_groups(before: Seq<GroupName>)
    requires
        group_texts(before).no_duplicates(),
    ensures
        group_texts(order::in_order(before)).no_duplicates(),
        group_texts(order::in_order(before)).to_set() == group_texts(before).to_set(),
        order::is_ordered(order::in_order(before)),
{
    broadcast use vstd::seq_lib::group_to_multiset_ensures;

    let sorted = order::in_order(before);
    order::lemma_in_order_multiset(before);
    order::lemma_in_order_sorted(before);
    assert(before.no_duplicates()) by {
        assert forall|i: int, j: int| 0 <= i < before.len() && 0 <= j < before.len() && i != j implies before[i]
            != before[j] by {
            assert(group_texts(before)[i] != group_texts(before)[j]);
        }
    }
    before.lemma_multiset_has_no_duplicates();
    assert forall|x: GroupName| sorted.to_multiset().contains(x) implies sorted.to_multiset().count(x) == 1 by {
        assert(before.to_multiset().contains(x));
    }
    sorted.lemma_multiset_has_no_duplicates_conv();
    let ts = group_texts(sorted);
    let tb = group_texts(before);
    assert forall|i: int, j: int| 0 <= i < ts.len() && 0 <= j < ts.len() && i != j implies ts[i]
        != ts[j] by {
        assert(sorted.contains(sorted[i]));
        assert(sorted.to_multiset().count(sorted[i]) > 0);
        assert(before.contains(sorted[i]));
        assert(sorted.contains(sorted[j]));
        assert(sorted.to_multiset().count(sorted[j]) > 0);
        assert(before.contains(sorted[j]));
        let a = choose|a: int| 0 <= a < before.len() && before[a] == sorted[i];
        let b = choose|b: int| 0 <= b < before.len() && before[b] == sorted[j];
        assert(sorted[i] != sorted[j]);
        assert(tb[a] == ts[i]);
        assert(tb[b] == ts[j]);
    }
    assert(ts.to_set() =~= tb.to_set()) by {
        assert forall|x: Seq<char>| ts.to_set().contains(x) <==> tb.to_set().contains(x) by {
            if ts.contains(x) {
                let k = choose|k: int| 0 <= k < ts.len() && ts[k] == x;
                assert(sorted.contains(sorted[k]));
                assert(sorted.to_multiset().count(sorted[k]) > 0);
                assert(before.contains(sorted[k]));
                let a = choose|a: int| 0 <= a < before.len() && before[a] == sorted[k];
                assert(tb[a] == x);
            }
            if tb.contains(x) {
                let k = choose|k: int| 0 <= k < tb.len() && tb[k] == x;
                assert(before.contains(before[k]));
                assert(before.to_multiset().count(before[k]) > 0);
                assert(sorted.contains(before[k]));
                let a = choose|a: int| 0 <= a < sorted.len() && sorted[a] == before[k];
                assert(ts[a] == x);
            }
        }
    }
}

/// The groups of the automations, each once, sorted by name ignoring case.
pub fn automation_groups(autos: &Vec<Automation>) -> (r: Vec<String>)
    ensures
        tui_forms::texts(r@).no_duplicates(),
        tui_forms::texts(r@).to_set() == named_groups(autos@),
        forall|i: int, j: int|
            #![trigger r@[i], r@[j]]
            0 <= i < j < r@.len() ==> !order::text_before(
                text::lowercase(r@[j]@),
                text::lowercase(r@[i]@),
            ),
{
    let mut found: Vec<GroupName> = Vec::new();
    let mut i: usize = 0;
    while i < autos.len()
        invariant
            i <= autos.len(),
            group_texts(found@).no_duplicates(),
            group_texts(found@).to_set() == named_groups(autos@.take(i as int)),
        decreases autos.len() - i,
    {
        let t = trim_chars(&chars_of(autos[i].group.as_str()));
        let g = string_of(&t);
        let ghost before = group_texts(found@);
        assert(autos@.take(i + 1) =~= autos@.take(i as int).push(autos@[i as int]));
        let mut seen = t.len() == 0;
        let mut k: usize = 0;
        while k < found.len() && !seen
            invariant
                k <= found.len(),
                before == group_texts(found@),
                seen ==> (g@.len() == 0 || before.contains(g@)),
                !seen ==> g@.len() > 0 && forall|j: int| 0 <= j < k ==> before[j] != g@,
            decreases found.len() - k,
        {
            if str_eq(found[k].name.as_str(), g.as_str()) {
                assert(before[k as int] == g@);
                seen = true;
            }
            k = k + 1;
        }
        let ghost next = named_groups(autos@.take(i + 1));
        if !seen {
            found.push(GroupName { name: g });
            let ghost after = group_texts(found@);
            assert(after =~= before.push(g@));
            assert(after.to_set() =~= next) by {
                assert forall|x: Seq<char>| after.to_set().contains(x) <==> next.contains(x) by {
                    if after.contains(x) {
                        let j = choose|j: int| 0 <= j < after.len() && after[j] == x;
                        if j < before.len() {
                            assert(before[j] == x);
                            assert(before.to_set().contains(x));
                            let a = choose|a: int| 0 <= a < i && text::trim(#[trigger] autos@.take(i as int)[a].group@) == x;
                            assert(autos@.take(i + 1)[a] == autos@.take(i as int)[a]);
                        } else {
                            assert(autos@.take(i + 1)[i as int].group@ == autos@[i as int].group@);
                        }
                    }
                    if next.contains(x) {
                        let a = choose|a: int| 0 <= a < i + 1 && text::trim(#[trigger] autos@.take(i + 1)[a].group@) == x;
                        if a < i {
                            assert(autos@.take(i as int)[a] == autos@.take(i + 1)[a]);
                            assert(named_groups(autos@.take(i as int)).contains(x));
                            let j = choose|j: int| 0 <= j < before.len() && before[j] == x;
                            assert(after[j] == x);
                        } else {
                            assert(after[before.len() as int] == x);
                        }
                    }
                }
            }
        } else {
            assert(before.to_set() =~= next) by {
                assert forall|x: Seq<char>| before.to_set().contains(x) <==> next.contains(x) by {
                    if before.contains(x) {
                        assert(before.to_set().contains(x));
                        assert(named_groups(autos@.take(i as int)).contains(x));
                        let a = choose|a: int| 0 <= a < i && text::trim(#[trigger] autos@.take(i as int)[a].group@) == x;
                        assert(autos@.take(i + 1)[a] == autos@.take(i as int)[a]);
                    }
                    if next.contains(x) {
                        let a = choose|a: int| 0 <= a < i + 1 && text::trim(#[trigger] autos@.take(i + 1)[a].group@) == x;
                        if a < i {
                            assert(autos@.take(i as int)[a] == autos@.take(i + 1)[a]);
                            assert(named_groups(autos@.take(i as int)).contains(x));
                        } else {
                            assert(text::trim(autos@[i as int].group@) == x);
                        }
                    }
                }
            }
        }
        i = i + 1;
    }
    assert(autos@.take(autos@.len() as int) =~= autos@);
    let ghost unsorted = found@;
    sort_in_order(&mut found);
    proof {
        lemma_sorted_groups(unsorted);
    }
    let mut r: Vec<String> = Vec::new();
    let mut k: usize = 0;
    while k < found.len()
        invariant
            k <= found.len(),
            tui_forms::texts(r@) == group_texts(found@.take(k as int)),
            forall|j: int| 0 <= j < k ==> (#[trigger] r@[j])@ == found@[j].name@,
            r@.len() == k,
        decreases found.len() - k,
    {
        let name = found[k].name.clone();
        r.push(name);
        assert(tui_forms::texts(r@) =~= group_texts(found@.take(k + 1)));
        k = k + 1;
    }
    assert(found@.take(found@.len() as int) =~= found@);
    proof {
        assert forall|i: int, j: int|
            #![trigger r@[i], r@[j]]
            0 <= i < j < r@.len() implies !order::text_before(
                text::lowercase(r@[j]@),
                text::lowercase(r@[i]@),
            ) by {
            assert(!found@[j].goes_before(&found@[i]));
        }
    }
    r
}


/// The positions of the automation rows (not the headers), in order.
pub open spec fn item_positions(rows: Seq<RowView>) -> Seq<int>
    decreases rows.len(),
{
    if rows.len() == 0 {
        Seq::empty()
    } else {
        let p = item_positions(rows.drop_last());
        if rows.last() is Item {
            p.push(rows.len() - 1)
        } else {
            p
        }
    }
}

/// The first of `items` at or after `current`, by its place in `items`.
pub open spec fn first_at_or_after(items: Seq<int>, current: int) -> Option<int>
    decreases items.len(),
{
    if items.len() == 0 {
        None
    } else if items[0] >= current {
        Some(0)
    } else {
        match first_at_or_after(items.drop_first(), current) {
            Some(k) => Some(k + 1),
            None => None,
        }
    }
}

/// The last of `items` at or before `current`, by its place in `items`.
pub open spec fn last_at_or_before(items: Seq<int>, current: int) -> Option<int>
    decreases items.len(),
{
    if items.len() == 0 {
        None
    } else if items.last() <= current {
        Some(items.len() - 1)
    } else {
        last_at_or_before(items.drop_last(), current)
    }
}

/// The row a selection lands on when headers are skipped: forward, the
/// first automation row at or after it (else the last one); backward, the
/// last at or before it (else the first one); row 0 without automations.
pub open spec fn skipped_to(rows: Seq<RowView>, current: int, forward: bool) -> int {
    let items = item_positions(rows);
    if forward {
        match first_at_or_after(items, current) {
            Some(k) => items[k],
            None => if items.len() > 0 {
                items.last()
            } else {
                0
            },
        }
    } else {
        match last_at_or_before(items, current) {
            Some(k) => items[k],
            None => if items.len() > 0 {
                items[0]
            } else {
                0
            },
        }
    }
}

/// The row a selection moves to by `delta` automation rows, never past
/// the first or last; none without automation rows.
pub open spec fn moved_by(rows: Seq<RowView>, current: int, delta: int) -> Option<int> {
    let items = item_positions(rows);
    if items.len() == 0 {
        None
    } else {
        let index = match first_at_or_after(items, current) {
            Some(k) => k,
            None => items.len() - 1,
        };
        let next = if index + delta < 0 {
            0
        } else if index + delta > items.len() - 1 {
            items.len() - 1
        } else {
            index + delta
        };
        Some(items[next])
    }
}

proof fn lemma_found_in_range(items: Seq<int>, current: int)
    ensures
        first_at_or_after(items, current) matches Some(k) ==> 0 <= k < items.len(),
        last_at_or_before(items, current) matches Some(k) ==> 0 <= k < items.len(),
    decreases items.len(),
{
    if items.len() > 0 {
        lemma_found_in_range(items.drop_first(), current);
        lemma_found_in_range(items.drop_last(), current);
    }
}

fn positions_of_items(rows: &Vec<AutomationRow>) -> (r: Vec<usize>)
    ensures
        ints(r@) == item_positions(row_views(rows@)),
        forall|k: int| 0 <= k < r@.len() ==> #[trigger] r@[k] < rows@.len(),
{
    let mut r: Vec<usize> = Vec::new();
    let mut i: usize = 0;
    while i < rows.len()
        invariant
            i <= rows.len(),
            ints(r@) == item_positions(row_views(rows@).take(i as int)),
            forall|k: int| 0 <= k < r@.len() ==> #[trigger] r@[k] < i,
        decreases rows.len() - i,
    {
        let ghost old_r = r@;
        assert(row_views(rows@).take(i + 1).drop_last() =~= row_views(rows@).take(i as int));
        match &rows[i] {
            AutomationRow::Item(_) => {
                r.push(i);
                assert(ints(r@) =~= ints(old_r).push(
                    i as int,
                ));
            },
            AutomationRow::Header(_, _) => {},
        }
        i = i + 1;
    }
    assert(row_views(rows@).take(rows@.len() as int) =~= row_views(rows@));
    r
}

fn find_first_at_or_after(items: &Vec<usize>, current: usize) -> (r: Option<usize>)
    ensures
        match first_at_or_after(ints(items@), current as int) {
            Some(k) => r == Some(k as usize) && 0 <= k < items@.len(),
            None => r is None,
        },
{
    let ghost all = ints(items@);
    let mut k: usize = 0;
    assert(all.skip(0) =~= all);
    proof {
        lemma_found_in_range(all, current as int);
    }
    while k < items.len()
        invariant
            k <= items.len(),
            all == ints(items@),
            first_at_or_after(all, current as int) == match first_at_or_after(
                all.skip(k as int),
                current as int,
            ) {
                Some(j) => Some(j + k),
                None => None,
            },
        decreases items.len() - k,
    {
        if items[k] >= current {
            assert(all.skip(k as int)[0] == items@[k as int] as int);
            return Some(k);
        }
        assert(all.skip(k as int).drop_first() =~= all.skip(k + 1));
        k = k + 1;
    }
    None
}

fn skip_forward(rows: &Vec<AutomationRow>, current: usize) -> (r: usize)
    ensures
        r == skipped_to(row_views(rows@), current as int, true),
{
    let items = positions_of_items(rows);
    let ghost all = ints(items@);
    proof {
        lemma_found_in_range(all, current as int);
    }
    match find_first_at_or_after(&items, current) {
        Some(k) => {
            assert(all[k as int] == items@[k as int] as int);
            items[k]
        },
        None => if items.len() > 0 {
            assert(all.last() == items@[items.len() - 1] as int);
            items[items.len() - 1]
        } else {
            0
        },
    }
}

fn skip_backward(rows: &Vec<AutomationRow>, current: usize) -> (r: usize)
    ensures
        r == skipped_to(row_views(rows@), current as int, false),
{
    let items = positions_of_items(rows);
    let ghost all = ints(items@);
    proof {
        lemma_found_in_range(all, current as int);
    }
    let mut k: usize = items.len();
    assert(all.take(k as int) =~= all);
    while k > 0
        invariant
            k <= items.len(),
            all == ints(items@),
            all == item_positions(row_views(rows@)),
            last_at_or_before(all, current as int) == last_at_or_before(
                all.take(k as int),
                current as int,
            ),
        decreases k,
    {
        if items[k - 1] <= current {
            assert(all.take(k as int).last() == items@[k - 1] as int);
            assert(all[k - 1] == items@[k - 1] as int);
            return items[k - 1];
        }
        assert(all.take(k as int).drop_last() =~= all.take(k - 1));
        k = k - 1;
    }
    assert(all.take(0) =~= Seq::<int>::empty());
    if items.len() > 0 {
        assert(all[0] == items@[0] as int);
        items[0]
    } else {
        0
    }
}

/// The row a selection lands on when the headers are skipped.
pub fn skip_headers(rows: &Vec<AutomationRow>, current: usize, forward: bool) -> (r: usize)
    ensures
        r == skipped_to(row_views(rows@), current as int, forward),
{
    if forward {
        skip_forward(rows, current)
    } else {
        skip_backward(rows, current)
    }
}

/// The row a selection moves to by `delta` automation rows; none without
/// automation rows.
pub fn move_selection(rows: &Vec<AutomationRow>, current: usize, delta: i64) -> (r: Option<usize>)
    ensures
        match moved_by(row_views(rows@), current as int, delta as int) {
            Some(p) => r == Some(p as usize),
            None => r is None,
        },
{
    let items = positions_of_items(rows);
    if items.len() == 0 {
        return None;
    }
    let index = match find_first_at_or_after(&items, current) {
        Some(k) => k,
        None => items.len() - 1,
    };
    let last = items.len() - 1;
    let target: i128 = index as i128 + delta as i128;
    let next: usize = if target < 0 {
        0
    } else if target > last as i128 {
        last
    } else {
        target as usize
    };
    Some(items[next])
}

/// The selection kept inside the rows and then moved back off a header.
pub fn clamp_row_selection(rows: &Vec<AutomationRow>, selected: usize) -> (r: usize)
    ensures
        r == skipped_to(
            row_views(rows@),
            if rows@.len() == 0 {
                0
            } else if selected < rows@.len() {
                selected as int
            } else {
                rows@.len() - 1
            },
            false,
        ),
{
    let kept = if rows.len() == 0 {
        0
    } else if selected < rows.len() {
        selected
    } else {
        rows.len() - 1
    };
    skip_headers(rows, kept, false)
}


/// The fixed filters of the automation list, in the order `f` steps
/// through them.
pub open spec fn static_filter(i: int) -> Seq<char> {
    if i == 0 {
        "all"@
    } else if i == 1 {
        "favorites"@
    } else if i == 2 {
        "background"@
    } else if i == 3 {
        "git"@
    } else if i == 4 {
        "docker"@
    } else if i == 5 {
        "build"@
    } else {
        "groups"@
    }
}

/// Every filter of the automation list: the fixed ones, then one per
/// group.
pub open spec fn filter_keys(groups: Seq<Seq<char>>) -> Seq<Seq<char>> {
    Seq::new(7, |i: int| static_filter(i)) + groups.map_values(|g: Seq<char>| "group:"@ + g)
}

/// The filter that `f` (forward) or `F` switches to: the next or previous
/// one in the ring of filters; an unknown filter counts as the first.
pub open spec fn cycled_filter(filter: Seq<char>, groups: Seq<Seq<char>>, forward: bool) -> Seq<char> {
    let keys = filter_keys(groups);
    let found = tui_forms::first_index(keys, filter);
    let current = if found < 0 {
        0
    } else {
        found
    };
    keys[if forward {
        crate::tui_keys::next_of(current, keys.len() as int)
    } else {
        crate::tui_keys::previous_of(current, keys.len() as int)
    }]
}

fn static_filter_name(i: usize) -> (r: &'static str)
    ensures
        r@ == static_filter(i as int),
{
    if i == 0 {
        "all"
    } else if i == 1 {
        "favorites"
    } else if i == 2 {
        "background"
    } else if i == 3 {
        "git"
    } else if i == 4 {
        "docker"
    } else if i == 5 {
        "build"
    } else {
        "groups"
    }
}

/// The filter that `f` (forward) or `F` switches to.
pub fn cycle_automation_filter(filter: &str, groups: &Vec<String>, forward: bool) -> (r: String)
    requires
        groups@.len() + 7 <= usize::MAX,
    ensures
        r@ == cycled_filter(filter@, tui_forms::texts(groups@), forward),
{
    let ghost keys_spec = filter_keys(tui_forms::texts(groups@));
    let mut keys: Vec<String> = Vec::new();
    let mut i: usize = 0;
    while i < 7
        invariant
            i <= 7,
            tui_forms::texts(keys@) == Seq::new(i as nat, |j: int| static_filter(j)),
        decreases 7 - i,
    {
        let ghost before = keys@;
        let name = owned(static_filter_name(i));
        keys.push(name);
        assert(keys@ == before.push(name));
        assert(tui_forms::texts(keys@) =~= tui_forms::texts(before).push(static_filter(i as int)));
        assert(tui_forms::texts(keys@) =~= Seq::new((i + 1) as nat, |j: int| static_filter(j)));
        i = i + 1;
    }
    let mut g: usize = 0;
    while g < groups.len()
        invariant
            g <= groups.len(),
            tui_forms::texts(keys@) == Seq::new(7, |j: int| static_filter(j)) + tui_forms::texts(
                groups@,
            ).take(g as int).map_values(|x: Seq<char>| "group:"@ + x),
        decreases groups.len() - g,
    {
        let ghost before = keys@;
        let key = concat2("group:", groups[g].as_str());
        keys.push(key);
        assert(keys@ == before.push(key));
        assert(tui_forms::texts(keys@) =~= tui_forms::texts(before).push("group:"@ + groups@[g as int]@));
        assert(tui_forms::texts(groups@).take(g + 1) =~= tui_forms::texts(groups@).take(
            g as int,
        ).push(groups@[g as int]@));
        assert(tui_forms::texts(keys@) =~= Seq::new(7, |j: int| static_filter(j)) + tui_forms::texts(
            groups@,
        ).take(g + 1).map_values(|x: Seq<char>| "group:"@ + x));
        g = g + 1;
    }
    assert(tui_forms::texts(groups@).take(groups@.len() as int) =~= tui_forms::texts(groups@));
    assert(tui_forms::texts(keys@) == keys_spec);
    let ghost all = tui_forms::texts(keys@);
    let mut k: usize = 0;
    let mut current: usize = 0;
    let mut found = false;
    while k < keys.len() && !found
        invariant
            k <= keys.len(),
            all == tui_forms::texts(keys@),
            !found ==> current == 0 && forall|j: int| 0 <= j < k ==> all[j] != filter@,
            found ==> current < keys.len() && tui_forms::first_index(all, filter@) == current,
        decreases keys.len() - k,
    {
        if str_eq(keys[k].as_str(), filter) {
            proof {
                tui_forms::lemma_first_index(all, filter@, k as int);
            }
            current = k;
            found = true;
        }
        k = k + 1;
    }
    proof {
        if !found {
            tui_forms::lemma_first_index(all, filter@, k as int);
        }
    }
    let next = cycle(current, keys.len(), forward);
    let r = owned(keys[next].as_str());
    r
}

/// What the automation list calls a filter.
pub open spec fn filter_label(filter: Seq<char>) -> Seq<char> {
    if text::starts_with(filter, "group:"@) {
        let g = filter.subrange(6, filter.len() as int);
        if g.len() == 0 {
            "Ungrouped"@
        } else {
            "Group: "@ + g
        }
    } else if filter == "favorites"@ {
        "Favorites"@
    } else if filter == "background"@ {
        "Background"@
    } else if filter == "git"@ {
        "Git"@
    } else if filter == "docker"@ {
        "Docker"@
    } else if filter == "build"@ {
        "Build"@
    } else if filter == "groups"@ {
        "Group view"@
    } else {
        "All automations"@
    }
}

/// What the automation list calls a filter: the group it picks, or the
/// name of a fixed filter.
pub fn automation_filter_label(filter: &str) -> (r: String)
    ensures
        r@ == filter_label(filter@),
{
    let f = chars_of(filter);
    proof {
        reveal_strlit("group:");
    }
    if f.len() >= 6 && f[0] == 'g' && f[1] == 'r' && f[2] == 'o' && f[3] == 'u' && f[4] == 'p' && f[5]
        == ':' {
        assert(text::starts_with(filter@, "group:"@)) by {
            assert(f@.take(6) =~= "group:"@);
        }
        let g = crate::text::slice_chars(&f, 6, f.len());
        if g.len() == 0 {
            return owned("Ungrouped");
        }
        return concat2("Group: ", string_of(&g).as_str());
    }
    assert(!text::starts_with(filter@, "group:"@)) by {
        if f@.len() >= 6 {
            if f@.take(6) =~= "group:"@ {
                assert(f@[0] == "group:"@[0]);
                assert(f@[1] == "group:"@[1]);
                assert(f@[2] == "group:"@[2]);
                assert(f@[3] == "group:"@[3]);
                assert(f@[4] == "group:"@[4]);
                assert(f@[5] == "group:"@[5]);
            }
        }
    }
    if str_eq(filter, "favorites") {
        owned("Favorites")
    } else if str_eq(filter, "background") {
        owned("Background")
    } else if str_eq(filter, "git") {
        owned("Git")
    } else if str_eq(filter, "docker") {
        owned("Docker")
    } else if str_eq(filter, "build") {
        owned("Build")
    } else if str_eq(filter, "groups") {
        owned("Group view")
    } else {
        owned("All automations")
    }
}


/// The alias filters in the order `f` steps through them.
pub open spec fn alias_filter_at(i: int) -> Seq<char> {
    if i == 0 {
        "all"@
    } else if i == 1 {
        "favorites"@
    } else if i == 2 {
        "git"@
    } else if i == 3 {
        "docker"@
    } else if i == 4 {
        "navigation"@
    } else {
        "build"@
    }
}

/// The key of the alias filter of this number.
pub fn alias_filter_key(i: usize) -> (r: &'static str)
    requires
        i < crate::tui_keys::ALIAS_FILTER_COUNT,
    ensures
        r@ == alias_filter_at(i as int),
{
    if i == 0 {
        "all"
    } else if i == 1 {
        "favorites"
    } else if i == 2 {
        "git"
    } else if i == 3 {
        "docker"
    } else if i == 4 {
        "navigation"
    } else {
        "build"
    }
}

/// Whether an alias matches a search (trimmed, in lowercase): its name or
/// its command holds it; an empty search matches everything.
pub open spec fn alias_query_matches(a: AliasEntry, q: Seq<char>) -> bool {
    q.len() == 0 || text::contains(text::lowercase(a.name@), q) || text::contains(
        text::lowercase(a.command_preview@),
        q,
    )
}

/// Whether the alias list shows an alias under a filter and a search.
pub open spec fn alias_shown(a: AliasEntry, filter: Seq<char>, q: Seq<char>) -> bool {
    listing::alias_shown(a, filter) && alias_query_matches(a, q)
}

/// The positions below `n` of the aliases shown, in list order.
pub open spec fn aliases_shown_below(
    aliases: Seq<AliasEntry>,
    filter: Seq<char>,
    q: Seq<char>,
    n: int,
) -> Seq<int>
    decreases n,
{
    if n <= 0 {
        Seq::empty()
    } else {
        let s = aliases_shown_below(aliases, filter, q, n - 1);
        if alias_shown(aliases[n - 1], filter, q) {
            s.push(n - 1)
        } else {
            s
        }
    }
}

/// The aliases at the given positions, as the list sorts them.
pub open spec fn alias_ranks(aliases: Seq<AliasEntry>, idx: Seq<int>) -> Seq<Ranked> {
    idx.map_values(
        |i: int| Ranked { index: i as usize, favorite: aliases[i].favorite, name: aliases[i].name },
    )
}

/// The positions of the aliases shown, favorites first and then by name
/// ignoring case; equal ones keep their order.
pub open spec fn visible(aliases: Seq<AliasEntry>, filter: Seq<char>, search: Seq<char>) -> Seq<int> {
    let q = text::lowercase(text::trim(search));
    order::in_order(
        alias_ranks(aliases, aliases_shown_below(aliases, filter, q, aliases.len() as int)),
    ).map_values(|r: Ranked| r.index as int)
}

proof fn lemma_shown_below_members(aliases: Seq<AliasEntry>, filter: Seq<char>, q: Seq<char>, n: int, i: int)
    requires
        0 <= n <= aliases.len(),
    ensures
        aliases_shown_below(aliases, filter, q, n).contains(i) <==> (0 <= i < n && alias_shown(
            aliases[i],
            filter,
            q,
        )),
    decreases n,
{
    if n > 0 {
        lemma_shown_below_members(aliases, filter, q, n - 1, i);
        let prev = aliases_shown_below(aliases, filter, q, n - 1);
        let cur = aliases_shown_below(aliases, filter, q, n);
        if alias_shown(aliases[n - 1], filter, q) {
            assert(cur == prev.push(n - 1));
            if cur.contains(i) {
                let k = choose|k: int| 0 <= k < cur.len() && cur[k] == i;
                if k < prev.len() {
                    assert(prev[k] == i);
                }
            }
            if 0 <= i < n && alias_shown(aliases[i], filter, q) {
                if i == n - 1 {
                    assert(cur[cur.len() - 1] == i);
                } else {
                    let k = choose|k: int| 0 <= k < prev.len() && prev[k] == i;
                    assert(cur[k] == i);
                }
            }
        } else {
            assert(cur == prev);
        }
    } else {
        let cur = aliases_shown_below(aliases, filter, q, n);
        assert(cur.len() == 0);
        if cur.contains(i) {
            let k = choose|k: int| 0 <= k < cur.len() && cur[k] == i;
        }
    }
}

/// The alias list shows exactly the aliases that pass the filter and whose
/// name or command, in lower case, holds the trimmed search in lower case
/// (a blank search holds for all): none is left out, none is added.
pub proof fn lemma_visible_aliases_members(
    aliases: Seq<AliasEntry>,
    filter: Seq<char>,
    search: Seq<char>,
    i: int,
)
    requires
        aliases.len() <= usize::MAX,
    ensures
        ({
            let q = text::lowercase(text::trim(search));
            visible(aliases, filter, search).contains(i) <==> (0 <= i < aliases.len()
                && listing::alias_shown(aliases[i], filter) && (q.len() == 0 || text::contains(
                text::lowercase(aliases[i].name@),
                q,
            ) || text::contains(text::lowercase(aliases[i].command_preview@), q)))
        }),
{
    broadcast use vstd::seq_lib::group_to_multiset_ensures;

    let q = text::lowercase(text::trim(search));
    let n = aliases.len() as int;
    let idx = aliases_shown_below(aliases, filter, q, n);
    let ranks = alias_ranks(aliases, idx);
    let sorted = order::in_order(ranks);
    order::lemma_in_order_multiset(ranks);
    let v = visible(aliases, filter, search);
    assert(v == sorted.map_values(|r: Ranked| r.index as int));
    if v.contains(i) {
        let k = choose|k: int| 0 <= k < v.len() && v[k] == i;
        let x = sorted[k];
        assert(sorted.contains(x));
        assert(sorted.to_multiset().count(x) > 0);
        assert(ranks.contains(x));
        let j = choose|j: int| 0 <= j < ranks.len() && ranks[j] == x;
        assert(idx.contains(idx[j]));
        lemma_shown_below_members(aliases, filter, q, n, idx[j]);
        assert(0 <= idx[j] < n);
        assert(x.index == idx[j] as usize);
        assert(i == idx[j]);
        assert(alias_shown(aliases[i], filter, q));
    }
    if 0 <= i < n && alias_shown(aliases[i], filter, q) {
        lemma_shown_below_members(aliases, filter, q, n, i);
        assert(idx.contains(i));
        let j = choose|j: int| 0 <= j < idx.len() && idx[j] == i;
        let x = ranks[j];
        assert(ranks.contains(x));
        assert(ranks.to_multiset().count(x) > 0);
        assert(sorted.contains(x));
        let k = choose|k: int| 0 <= k < sorted.len() && sorted[k] == x;
        assert(v[k] == x.index as int);
        assert(x.index == i as usize);
        assert(v.contains(i));
    }
}

/// The alias list puts favorites first, and within each part orders by
/// name ignoring case: no later alias is a favorite where an earlier one is
/// not, or, both alike, has a name that comes first in lower case.
pub proof fn lemma_visible_aliases_sorted(
    aliases: Seq<AliasEntry>,
    filter: Seq<char>,
    search: Seq<char>,
    k: int,
    l: int,
)
    requires
        aliases.len() <= usize::MAX,
        0 <= k < l < visible(aliases, filter, search).len(),
    ensures
        ({
            let v = visible(aliases, filter, search);
            let a = aliases[v[k]];
            let b = aliases[v[l]];
            &&& 0 <= v[k] < aliases.len()
            &&& 0 <= v[l] < aliases.len()
            &&& !(b.favorite && !a.favorite)
            &&& a.favorite == b.favorite ==> !order::text_before(
                text::lowercase(b.name@),
                text::lowercase(a.name@),
            )
        }),
{
    broadcast use vstd::seq_lib::group_to_multiset_ensures;

    let q = text::lowercase(text::trim(search));
    let n = aliases.len() as int;
    let idx = aliases_shown_below(aliases, filter, q, n);
    let ranks = alias_ranks(aliases, idx);
    let sorted = order::in_order(ranks);
    order::lemma_in_order_multiset(ranks);
    order::lemma_in_order_sorted(ranks);
    let v = visible(aliases, filter, search);
    assert(v == sorted.map_values(|r: Ranked| r.index as int));
    assert forall|t: int| 0 <= t < sorted.len() implies 0 <= (#[trigger] sorted[t]).index < n
        && sorted[t].favorite == aliases[sorted[t].index as int].favorite && sorted[t].name
        == aliases[sorted[t].index as int].name by {
        let x = sorted[t];
        assert(sorted.contains(x));
        assert(sorted.to_multiset().count(x) > 0);
        assert(ranks.contains(x));
        let j = choose|j: int| 0 <= j < ranks.len() && ranks[j] == x;
        assert(idx.contains(idx[j]));
        lemma_shown_below_members(aliases, filter, q, n, idx[j]);
        assert(x.index == idx[j] as usize);
    }
    let x = sorted[k];
    let y = sorted[l];
    assert(!y.goes_before(&x));
    assert(v[k] == x.index as int);
    assert(v[l] == y.index as int);
}

/// The positions of the aliases that the list shows for a filter and a
/// search, in list order.
pub fn visible_aliases(aliases: &Vec<AliasEntry>, filter: &str, search: &str) -> (r: Vec<usize>)
    ensures
        ints(r@) == visible(aliases@, filter@, search@),
        ({
            let q = text::lowercase(text::trim(search@));
            forall|i: int|
                0 <= i < aliases@.len() ==> (ints(r@).contains(i) <==> (listing::alias_shown(
                    #[trigger] aliases@[i],
                    filter@,
                ) && (q.len() == 0 || text::contains(text::lowercase(aliases@[i].name@), q)
                    || text::contains(text::lowercase(aliases@[i].command_preview@), q))))
        }),
{
    let trimmed = string_of(&trim_chars(&chars_of(search)));
    let q = chars_of(to_lowercase(trimmed.as_str()).as_str());
    let mut ranked: Vec<Ranked> = Vec::new();
    let mut i: usize = 0;
    while i < aliases.len()
        invariant
            i <= aliases.len(),
            q@ == text::lowercase(text::trim(search@)),
            ranked@ == alias_ranks(aliases@, aliases_shown_below(aliases@, filter@, q@, i as int)),
        decreases aliases.len() - i,
    {
        let a = &aliases[i];
        let matched = q.len() == 0 || lower_contains(a.name.as_str(), &q) || lower_contains(
            a.command_preview.as_str(),
            &q,
        );
        if alias_matches_filter(a, filter) && matched {
            ranked.push(Ranked { index: i, favorite: a.favorite, name: a.name.clone() });
        }
        assert(ranked@ =~= alias_ranks(aliases@, aliases_shown_below(aliases@, filter@, q@, i + 1)));
        i = i + 1;
    }
    let ghost before = ranked@;
    sort_in_order(&mut ranked);
    let mut r: Vec<usize> = Vec::new();
    let mut k: usize = 0;
    while k < ranked.len()
        invariant
            k <= ranked.len(),
            ints(r@) == ranked@.take(k as int).map_values(|x: Ranked| x.index as int),
        decreases ranked.len() - k,
    {
        let ghost old_r = r@;
        r.push(ranked[k].index);
        assert(ranked@.take(k + 1) =~= ranked@.take(k as int).push(ranked@[k as int]));
        assert(ints(r@) =~= ints(old_r).push(ranked@[k as int].index as int));
        assert(ranked@.take(k + 1).map_values(|x: Ranked| x.index as int) =~= ranked@.take(
            k as int,
        ).map_values(|x: Ranked| x.index as int).push(ranked@[k as int].index as int));
        k = k + 1;
    }
    assert(ranked@.take(ranked@.len() as int) =~= ranked@);
    proof {
        assert forall|j: int| 0 <= j < aliases@.len() implies (ints(r@).contains(j) <==> (
        listing::alias_shown(#[trigger] aliases@[j], filter@) && (text::lowercase(
            text::trim(search@),
        ).len() == 0 || text::contains(
            text::lowercase(aliases@[j].name@),
            text::lowercase(text::trim(search@)),
        ) || text::contains(
            text::lowercase(aliases@[j].command_preview@),
            text::lowercase(text::trim(search@)),
        )))) by {
            lemma_visible_aliases_members(aliases@, filter@, search@, j);
        }
    }
    r
}

} // verus!
