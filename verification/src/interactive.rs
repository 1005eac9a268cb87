//! The interactive generator: the pages of dependencies, the state of the
//! dependency picker and how each key changes it, and the small decisions
//! around the prompts.
use vstd::prelude::*;
use crate::metadata::{dep_views, flatten_groups, group_views, DepOption, DepSpec, Metadata, Option_, option_views};
use crate::text::{extend, from_chars, join, joined, string_views, to_chars};
use crate::generate::range_text;
use crate::version::{format_range_defined, format_version_range, is_boot_version_in_range, spec_format_range, spec_in_range};

verus! {

/// How many dependencies a page shows at most.
pub const PAGE_SIZE: usize = 10;

// ── Numbers as text ──

pub open spec fn digit_char(d: nat) -> char {
    (48 + d) as char
}

/// The decimal digits of `n`.
pub open spec fn decimal(n: nat) -> Seq<char>
    decreases n,
{
    if n < 10 {
        seq![digit_char(n)]
    } else {
        decimal(n / 10).push(digit_char(n % 10))
    }
}

pub fn decimal_text(n: usize) -> (r: Vec<char>)
    ensures
        r@ == decimal(n as nat),
    decreases n,
{
    if n < 10 {
        let c = (48 + n as u8) as char;
        return vec![c];
    }
    let mut r = decimal_text(n / 10);
    let d = (48 + (n % 10) as u8) as char;
    r.push(d);
    r
}

// ── Pages ──

/// One page of the picker: a title and up to `PAGE_SIZE` dependencies of
/// one group.
pub struct DepPage {
    pub title: String,
    pub deps: Vec<DepOption>,
}

pub open spec fn page_views(pages: Seq<DepPage>) -> Seq<(Seq<char>, Seq<DepSpec>)> {
    pages.map_values(|p: DepPage| (p.title@, dep_views(p.deps@)))
}

/// How many pages a group of `n` dependencies fills.
pub open spec fn page_count(n: nat) -> nat {
    ((n + 9) / 10) as nat
}

/// The title of page `i` of `count` of group `name`: the name alone when
/// the group fits on one page, else the name and `(i+1/count)`.
pub open spec fn page_title(name: Seq<char>, i: nat, count: nat) -> Seq<char> {
    if count == 1 {
        name
    } else {
        name + " ("@ + decimal(i + 1) + "/"@ + decimal(count) + ")"@
    }
}

/// Dependencies `10 i` up to `10 i + 10` of `deps`.
pub open spec fn chunk(deps: Seq<DepSpec>, i: int) -> Seq<DepSpec> {
    let end = if 10 * i + 10 <= deps.len() { 10 * i + 10 } else { deps.len() as int };
    deps.subrange(10 * i, end)
}

/// The pages of one group.
pub open spec fn group_pages(name: Seq<char>, deps: Seq<DepSpec>) -> Seq<(Seq<char>, Seq<DepSpec>)> {
    let n = page_count(deps.len());
    Seq::new(n, |i: int| (page_title(name, i as nat, n), chunk(deps, i)))
}

/// The pages of all groups, in order; an empty group has none.
pub open spec fn spec_build_pages(groups: Seq<(Seq<char>, Seq<DepSpec>)>) -> Seq<(Seq<char>, Seq<DepSpec>)>
    decreases groups.len(),
{
    if groups.len() == 0 {
        Seq::empty()
    } else {
        let prev = spec_build_pages(groups.drop_last());
        let g = groups.last();
        if g.1.len() == 0 {
            prev
        } else {
            prev + group_pages(g.0, g.1)
        }
    }
}

fn clone_deps(deps: &Vec<DepOption>, lo: usize, hi: usize) -> (r: Vec<DepOption>)
    requires
        lo <= hi <= deps.len(),
    ensures
        dep_views(r@) == dep_views(deps@).subrange(lo as int, hi as int),
{
    let mut out: Vec<DepOption> = Vec::new();
    let mut i: usize = lo;
    while i < hi
        invariant
            lo <= i <= hi <= deps.len(),
            out@.len() == i - lo,
            forall|k: int| 0 <= k < i - lo ==> #[trigger] out@[k]@ == deps@[lo + k]@,
        decreases hi - i,
    {
        out.push(deps[i].clone_dep());
        i = i + 1;
    }
    assert(dep_views(out@) =~= dep_views(deps@).subrange(lo as int, hi as int));
    out
}

fn title_of(name: &String, i: usize, count: usize) -> (r: String)
    requires
        i < count,
    ensures
        r@ == page_title(name@, i as nat, count as nat),
{
    if count == 1 {
        return name.clone();
    }
    let mut out = to_chars(name.as_str());
    extend(&mut out, &to_chars(" ("));
    extend(&mut out, &decimal_text(i + 1));
    extend(&mut out, &to_chars("/"));
    extend(&mut out, &decimal_text(count));
    extend(&mut out, &to_chars(")"));
    from_chars(&out)
}

/// The pages of the dependency picker: each group's dependencies in chunks
/// of `PAGE_SIZE`, titled by the group (numbered when it takes more than one).
pub fn build_pages(meta: &Metadata) -> (r: Vec<DepPage>)
    ensures
        page_views(r@) == spec_build_pages(group_views(meta.dependency_groups@)),
{
    let ghost gs = group_views(meta.dependency_groups@);
    let mut pages: Vec<DepPage> = Vec::new();
    let mut g: usize = 0;
    assert(gs.take(0) =~= Seq::<(Seq<char>, Seq<DepSpec>)>::empty());
    assert(page_views(pages@) =~= Seq::<(Seq<char>, Seq<DepSpec>)>::empty());
    while g < meta.dependency_groups.len()
        invariant
            g <= meta.dependency_groups.len(),
            gs == group_views(meta.dependency_groups@),
            page_views(pages@) == spec_build_pages(gs.take(g as int)),
        decreases meta.dependency_groups.len() - g,
    {
        assert(gs.take(g + 1).drop_last() == gs.take(g as int));
        let group = &meta.dependency_groups[g];
        assert(gs.take(g + 1).last() == (group.name@, dep_views(group.deps@)));
        let n = group.deps.len();
        if n > 0 {
            let count = n / 10 + if n % 10 == 0 { 0 } else { 1 };
            assert(count == page_count(n as nat));
            let ghost before = page_views(pages@);
            let ghost gp = group_pages(group.name@, dep_views(group.deps@));
            let mut i: usize = 0;
            while i < count
                invariant
                    i <= count,
                    count == page_count(n as nat),
                    n == group.deps.len(),
                    n > 0,
                    gp == group_pages(group.name@, dep_views(group.deps@)),
                    page_views(pages@) == before + gp.take(i as int),
                decreases count - i,
            {
                assert(10 * i < n) by (nonlinear_arith)
                    requires
                        i < count,
                        count == (n + 9) / 10,
                ;
                let lo = 10 * i;
                let hi = if n - lo >= 10 { lo + 10 } else { n };
                let title = title_of(&group.name, i, count);
                let deps = clone_deps(&group.deps, lo, hi);
                let p = DepPage { title, deps };
                assert(page_views(pages@.push(p)) =~= page_views(pages@).push((p.title@, dep_views(p.deps@))));
                assert(gp.take(i + 1) =~= gp.take(i as int).push(gp[i as int]));
                pages.push(p);
                i = i + 1;
            }
            assert(gp.take(count as int) =~= gp);
        }
        g = g + 1;
    }
    assert(gs.take(meta.dependency_groups.len() as int) == gs);
    pages
}

// ── Laws of the pages ──

proof fn lemma_flatten_append(a: Seq<(Seq<char>, Seq<DepSpec>)>, b: Seq<(Seq<char>, Seq<DepSpec>)>)
    ensures
        flatten_groups(a + b) == flatten_groups(a) + flatten_groups(b),
    decreases b.len(),
{
    if b.len() == 0 {
        assert(a + b =~= a);
        assert(flatten_groups(a) + flatten_groups(b) =~= flatten_groups(a));
    } else {
        lemma_flatten_append(a, b.drop_last());
        assert((a + b).drop_last() =~= a + b.drop_last());
        assert((a + b).last() == b.last());
        assert(flatten_groups(a) + flatten_groups(b.drop_last()) + b.last().1 =~= flatten_groups(a) + (
        flatten_groups(b.drop_last()) + b.last().1));
    }
}

proof fn lemma_group_pages_prefix(name: Seq<char>, deps: Seq<DepSpec>, k: int)
    requires
        0 <= k <= page_count(deps.len()),
    ensures
        flatten_groups(group_pages(name, deps).take(k)) == deps.take(
            if 10 * k <= deps.len() { 10 * k } else { deps.len() as int },
        ),
    decreases k,
{
    let gp = group_pages(name, deps);
    if k == 0 {
        assert(gp.take(0) =~= Seq::<(Seq<char>, Seq<DepSpec>)>::empty());
        assert(deps.take(0) =~= Seq::<DepSpec>::empty());
    } else {
        lemma_group_pages_prefix(name, deps, k - 1);
        assert(gp.take(k).drop_last() =~= gp.take(k - 1));
        assert(gp.take(k).last() == gp[k - 1]);
        assert(10 * (k - 1) < deps.len()) by (nonlinear_arith)
            requires
                k <= (deps.len() + 9) / 10,
                k >= 1,
        ;
        let lo = 10 * (k - 1);
        let hi = if 10 * k <= deps.len() { 10 * k } else { deps.len() as int };
        assert(deps.take(lo) + deps.subrange(lo, hi) =~= deps.take(hi));
    }
}

/// Every page holds one to `PAGE_SIZE` dependencies, and the pages' dependencies,
/// taken in order, are exactly the dependencies of the groups, in order.
pub proof fn lemma_pages_cover_groups(groups: Seq<(Seq<char>, Seq<DepSpec>)>)
    ensures
        flatten_groups(spec_build_pages(groups)) == flatten_groups(groups),
        forall|i: int| 0 <= i < spec_build_pages(groups).len() ==> 1 <= #[trigger] spec_build_pages(groups)[i].1.len() <= 10,
    decreases groups.len(),
{
    if groups.len() > 0 {
        lemma_pages_cover_groups(groups.drop_last());
        let prev = spec_build_pages(groups.drop_last());
        let g = groups.last();
        if g.1.len() == 0 {
            assert(flatten_groups(groups.drop_last()) + g.1 =~= flatten_groups(groups.drop_last()));
        } else {
            let gp = group_pages(g.0, g.1);
            let n = page_count(g.1.len());
            lemma_group_pages_prefix(g.0, g.1, n as int);
            assert(gp.take(n as int) =~= gp);
            assert(10 * n >= g.1.len()) by (nonlinear_arith)
                requires
                    n == (g.1.len() + 9) / 10,
            ;
            assert(g.1.take(g.1.len() as int) =~= g.1);
            lemma_flatten_append(prev, gp);
            assert forall|i: int| 0 <= i < spec_build_pages(groups).len() implies 1 <= #[trigger] spec_build_pages(groups)[i].1.len() <= 10 by {
                if i >= prev.len() {
                    let j = i - prev.len();
                    assert(spec_build_pages(groups)[i] == gp[j]);
                    assert(10 * j < g.1.len()) by (nonlinear_arith)
                        requires
                            0 <= j < n,
                            n == (g.1.len() + 9) / 10,
                    ;
                } else {
                    assert(spec_build_pages(groups)[i] == prev[i]);
                }
            }
        }
    }
}

// ── The dependency picker ──

/// The keys a user can press in the picker.
#[derive(PartialEq, Eq, Structural, Clone, Copy, Debug)]
pub enum PickerKey {
    Left,
    Right,
    Up,
    Down,
    Space,
    Enter,
    Escape,
    Other,
}

/// Where the picker is: the page, the dependency under the cursor, and the
/// keys selected.
pub struct DepSelection {
    pub page_idx: usize,
    pub cursor: usize,
    pub selected: Vec<String>,
}

/// The picker's state: page, cursor, and the set of selected keys.
pub struct PickerView {
    pub page: int,
    pub cursor: int,
    pub selected: Set<Seq<char>>,
}

pub open spec fn no_duplicates(s: Seq<Seq<char>>) -> bool {
    forall|i: int, j: int| 0 <= i < j < s.len() ==> s[i] != s[j]
}

pub open spec fn as_set(s: Seq<Seq<char>>) -> Set<Seq<char>> {
    Set::new(|x: Seq<char>| s.contains(x))
}

impl DepSelection {
    pub open spec fn view_state(&self) -> PickerView {
        PickerView {
            page: self.page_idx as int,
            cursor: self.cursor as int,
            selected: as_set(string_views(self.selected@)),
        }
    }

    /// The selected keys are held once each.
    pub open spec fn selection_wf(&self) -> bool {
        no_duplicates(string_views(self.selected@))
    }
}

/// Pages the picker can show: at least one, none empty.
pub open spec fn pages_wf(pages: Seq<(Seq<char>, Seq<DepSpec>)>) -> bool {
    pages.len() > 0 && forall|i: int| 0 <= i < pages.len() ==> #[trigger] pages[i].1.len() > 0
}

/// The page and cursor point at a dependency.
pub open spec fn position_wf(s: PickerView, pages: Seq<(Seq<char>, Seq<DepSpec>)>) -> bool {
    0 <= s.page < pages.len() && 0 <= s.cursor < pages[s.page].1.len()
}

/// `k` selected if it was not, unselected if it was.
pub open spec fn toggled(set: Set<Seq<char>>, k: Seq<char>) -> Set<Seq<char>> {
    if set.contains(k) {
        set.remove(k)
    } else {
        set.insert(k)
    }
}

/// What a key does: the arrows move between pages (wrapping, cursor back
/// on top) and along the page (wrapping); space selects or unselects the
/// dependency under the cursor when it fits Boot `boot`; enter and escape
/// end the picking (the second component).
pub open spec fn spec_picker_step(
    s: PickerView,
    pages: Seq<(Seq<char>, Seq<DepSpec>)>,
    boot: Seq<char>,
    key: PickerKey,
) -> (PickerView, bool) {
    let total = pages.len() as int;
    let count = pages[s.page].1.len() as int;
    match key {
        PickerKey::Left => (
            PickerView { page: if s.page == 0 { total - 1 } else { s.page - 1 }, cursor: 0, selected: s.selected },
            false,
        ),
        PickerKey::Right => (PickerView { page: (s.page + 1) % total, cursor: 0, selected: s.selected }, false),
        PickerKey::Up => (
            PickerView { page: s.page, cursor: if s.cursor == 0 { count - 1 } else { s.cursor - 1 }, selected: s.selected },
            false,
        ),
        PickerKey::Down => (PickerView { page: s.page, cursor: (s.cursor + 1) % count, selected: s.selected }, false),
        PickerKey::Space => {
            let d = pages[s.page].1[s.cursor];
            if spec_in_range(boot, d.version_range) {
                (PickerView { page: s.page, cursor: s.cursor, selected: toggled(s.selected, d.key) }, false)
            } else {
                (s, false)
            }
        },
        PickerKey::Enter => (s, true),
        PickerKey::Escape => (s, true),
        PickerKey::Other => (s, false),
    }
}

fn position_of(v: &Vec<String>, k: &String) -> (r: Option<usize>)
    ensures
        match r {
            Some(i) => i < v.len() && v@[i as int]@ == k@,
            None => !string_views(v@).contains(k@),
        },
{
    let mut i: usize = 0;
    while i < v.len()
        invariant
            i <= v.len(),
            forall|j: int| 0 <= j < i ==> v@[j]@ != k@,
        decreases v.len() - i,
    {
        if v[i] == *k {
            return Some(i);
        }
        i = i + 1;
    }
    assert forall|x: Seq<char>| string_views(v@).contains(x) implies x != k@ by {
        let j = choose|j: int| 0 <= j < string_views(v@).len() && string_views(v@)[j] == x;
        assert(v@[j]@ == x);
    }
    None
}

impl DepSelection {
    /// The picker on the first page, the pre-selected keys selected; none
    /// when there is no page to show.
    pub fn start(pages: &Vec<DepPage>, pre_selected: &[String]) -> (r: Option<DepSelection>)
        requires
            forall|i: int| 0 <= i < pages@.len() ==> #[trigger] pages@[i].deps@.len() > 0,
        ensures
            match r {
                Some(s) => pages@.len() > 0 && s.page_idx == 0 && s.cursor == 0 && s.selection_wf()
                    && s.view_state().selected == as_set(string_views(pre_selected@)),
                None => pages@.len() == 0,
            },
    {
        if pages.len() == 0 {
            return None;
        }
        let mut sel: Vec<String> = Vec::new();
        let mut i: usize = 0;
        while i < pre_selected.len()
            invariant
                i <= pre_selected.len(),
                no_duplicates(string_views(sel@)),
                forall|x: Seq<char>| string_views(sel@).contains(x) <==> string_views(pre_selected@).take(i as int).contains(x),
            decreases pre_selected.len() - i,
        {
            let k = pre_selected[i].clone();
            let ghost before = string_views(sel@);
            let ghost pre = string_views(pre_selected@);
            let ghost t0 = pre.take(i as int);
            let ghost t1 = pre.take(i + 1);
            assert(t1 =~= t0.push(k@));
            match position_of(&sel, &k) {
                Some(p) => {
                    assert(before[p as int] == k@);
                    assert(before.contains(k@));
                    assert forall|x: Seq<char>| string_views(sel@).contains(x) <==> t1.contains(x) by {
                        if t1.contains(x) && x != k@ {
                            let j = choose|j: int| 0 <= j < t1.len() && t1[j] == x;
                            assert(t0[j] == x);
                        }
                        if t0.contains(x) {
                            let j = choose|j: int| 0 <= j < t0.len() && t0[j] == x;
                            assert(t1[j] == x);
                        }
                    }
                },
                None => {
                    sel.push(k);
                    let ghost after = string_views(sel@);
                    assert(after =~= before.push(k@));
                    assert forall|x: Seq<char>| after.contains(x) <==> t1.contains(x) by {
                        if after.contains(x) {
                            let j = choose|j: int| 0 <= j < after.len() && after[j] == x;
                            if j < before.len() {
                                assert(before[j] == x);
                                assert(before.contains(x));
                                assert(t0.contains(x));
                                let m = choose|m: int| 0 <= m < t0.len() && t0[m] == x;
                                assert(t1[m] == x);
                            } else {
                                assert(t1[i as int] == x);
                            }
                        }
                        if t1.contains(x) {
                            let j = choose|j: int| 0 <= j < t1.len() && t1[j] == x;
                            if j < i {
                                assert(t0[j] == x);
                                assert(t0.contains(x));
                                assert(before.contains(x));
                                let m = choose|m: int| 0 <= m < before.len() && before[m] == x;
                                assert(after[m] == x);
                            } else {
                                assert(after[before.len() as int] == x);
                            }
                        }
                    }
                },
            }
            i = i + 1;
        }
        assert(string_views(pre_selected@).take(pre_selected.len() as int) == string_views(pre_selected@));
        let s = DepSelection { page_idx: 0, cursor: 0, selected: sel };
        assert(s.view_state().selected =~= as_set(string_views(pre_selected@)));
        Some(s)
    }

    fn toggle(&mut self, k: &String)
        requires
            old(self).selection_wf(),
        ensures
            final(self).selection_wf(),
            final(self).view_state().selected == toggled(old(self).view_state().selected, k@),
            final(self).page_idx == old(self).page_idx,
            final(self).cursor == old(self).cursor,
    {
        let ghost before = string_views(self.selected@);
        match position_of(&self.selected, k) {
            Some(i) => {
                self.selected.remove(i);
                let ghost after = string_views(self.selected@);
                assert(after =~= before.remove(i as int));
                assert forall|x: Seq<char>| after.contains(x) <==> (before.contains(x) && x != k@) by {
                    if after.contains(x) {
                        let j = choose|j: int| 0 <= j < after.len() && after[j] == x;
                        if j < i {
                            assert(before[j] == x);
                            assert(before[j] != before[i as int]);
                        } else {
                            assert(before[j + 1] == x);
                            assert(before[i as int] != before[j + 1]);
                        }
                    }
                    if before.contains(x) && x != k@ {
                        let j = choose|j: int| 0 <= j < before.len() && before[j] == x;
                        if j < i {
                            assert(after[j] == x);
                        } else {
                            assert(j != i);
                            assert(after[j - 1] == x);
                        }
                    }
                }
                assert(before[i as int] == k@);
                assert(self.view_state().selected =~= toggled(as_set(before), k@));
            },
            None => {
                let c = k.clone();
                self.selected.push(c);
                let ghost after = string_views(self.selected@);
                assert(after =~= before.push(k@));
                assert forall|x: Seq<char>| after.contains(x) <==> (before.contains(x) || x == k@) by {
                    if after.contains(x) {
                        let j = choose|j: int| 0 <= j < after.len() && after[j] == x;
                        if j < before.len() {
                            assert(before[j] == x);
                        }
                    }
                    if before.contains(x) {
                        let j = choose|j: int| 0 <= j < before.len() && before[j] == x;
                        assert(after[j] == x);
                    }
                    if x == k@ {
                        assert(after[before.len() as int] == x);
                    }
                }
                assert(self.view_state().selected =~= toggled(as_set(before), k@));
            },
        }
    }

    /// Applies one key; says whether the picking is over.
    pub fn step(&mut self, pages: &Vec<DepPage>, boot_version: &str, key: PickerKey) -> (done: bool)
        requires
            pages_wf(page_views(pages@)),
            position_wf(old(self).view_state(), page_views(pages@)),
            old(self).selection_wf(),
        ensures
            (final(self).view_state(), done) == spec_picker_step(old(self).view_state(), page_views(pages@), boot_version@, key),
            position_wf(final(self).view_state(), page_views(pages@)),
            final(self).selection_wf(),
    {
        let ghost pv = page_views(pages@);
        assert(pv[self.page_idx as int].1.len() == pages@[self.page_idx as int].deps@.len());
        let total = pages.len();
        let count = pages[self.page_idx].deps.len();
        let ghost st = self.view_state();
        match key {
            PickerKey::Left => {
                self.page_idx = if self.page_idx == 0 { total - 1 } else { self.page_idx - 1 };
                self.cursor = 0;
                assert(pv[self.page_idx as int].1.len() > 0);
                false
            },
            PickerKey::Right => {
                self.page_idx = (self.page_idx + 1) % total;
                self.cursor = 0;
                assert(pv[self.page_idx as int].1.len() > 0);
                false
            },
            PickerKey::Up => {
                self.cursor = if self.cursor == 0 { count - 1 } else { self.cursor - 1 };
                false
            },
            PickerKey::Down => {
                self.cursor = (self.cursor + 1) % count;
                false
            },
            PickerKey::Space => {
                let d = &pages[self.page_idx].deps[self.cursor];
                assert(pv[self.page_idx as int].1[self.cursor as int] == d@);
                let range = match &d.version_range {
                    Some(t) => Some(t.as_str()),
                    None => None,
                };
                if is_boot_version_in_range(boot_version, range) {
                    self.toggle(&d.key);
                }
                false
            },
            PickerKey::Enter => true,
            PickerKey::Escape => true,
            PickerKey::Other => false,
        }
    }
}

/// Picking twice the same dependency leaves the selection as it was.
pub proof fn lemma_space_twice_restores(
    s: PickerView,
    pages: Seq<(Seq<char>, Seq<DepSpec>)>,
    boot: Seq<char>,
)
    requires
        pages_wf(pages),
        position_wf(s, pages),
    ensures
        spec_picker_step(spec_picker_step(s, pages, boot, PickerKey::Space).0, pages, boot, PickerKey::Space).0 == s,
{
    let d = pages[s.page].1[s.cursor];
    if spec_in_range(boot, d.version_range) {
        let once = toggled(s.selected, d.key);
        assert(toggled(once, d.key) =~= s.selected);
    }
}

/// Going one page right and then one page left comes back to the page one
/// started from (cursor on top).
pub proof fn lemma_right_then_left_returns(
    s: PickerView,
    pages: Seq<(Seq<char>, Seq<DepSpec>)>,
    boot: Seq<char>,
)
    requires
        pages_wf(pages),
        position_wf(s, pages),
    ensures
        ({
            let back = spec_picker_step(spec_picker_step(s, pages, boot, PickerKey::Right).0, pages, boot, PickerKey::Left).0;
            back.page == s.page && back.cursor == 0 && back.selected == s.selected
        }),
{
    let total = pages.len() as int;
    assert((s.page + 1) % total == if s.page + 1 < total { s.page + 1 } else { 0 }) by (nonlinear_arith)
        requires
            0 <= s.page < total,
    ;
}

// ── What the picker shows ──

/// One line of the current page.
pub struct DepRow {
    pub text: String,
    pub compatible: bool,
    pub selected: bool,
    pub at_cursor: bool,
    /// The Boot versions the dependency needs, shown when it does not fit.
    pub requirement: Option<String>,
}

pub open spec fn row_view(r: DepRow) -> (Seq<char>, bool, bool, bool, Option<Seq<char>>) {
    (r.text@, r.compatible, r.selected, r.at_cursor, match r.requirement {
        Some(t) => Some(t@),
        None => None,
    })
}

/// The line of dependency `i` of a page: its name; whether it fits Boot
/// `boot`; whether it is selected (only one that fits can be); whether the
/// cursor is on it; and, when it does not fit, the range it needs in words.
pub open spec fn spec_row(s: PickerView, page: Seq<DepSpec>, boot: Seq<char>, i: int) -> (Seq<char>, bool, bool, bool, Option<Seq<char>>) {
    let d = page[i];
    let fits = spec_in_range(boot, d.version_range);
    (
        d.text,
        fits,
        s.selected.contains(d.key) && fits,
        i == s.cursor,
        if fits { None } else { Some(spec_format_range(range_text(d.version_range))) },
    )
}

/// The ranges the current page must put in words can be.
pub open spec fn rows_defined(page: Seq<DepSpec>, boot: Seq<char>) -> bool {
    forall|i: int| 0 <= i < page.len() && !spec_in_range(boot, #[trigger] page[i].version_range)
        ==> format_range_defined(range_text(page[i].version_range))
}

/// The names of the selected dependencies, in the order of `all`.
pub open spec fn selected_names(all: Seq<DepSpec>, sel: Set<Seq<char>>) -> Seq<Seq<char>>
    decreases all.len(),
{
    if all.len() == 0 {
        Seq::empty()
    } else {
        let prev = selected_names(all.drop_last(), sel);
        if sel.contains(all.last().key) {
            prev.push(all.last().text)
        } else {
            prev
        }
    }
}

/// The selected names joined by commas, or the first five and how many more.
pub open spec fn summary_text(names: Seq<Seq<char>>) -> Seq<char> {
    if names.len() <= 6 {
        joined(names, ", "@)
    } else {
        joined(names.take(5), ", "@) + ", ... +"@ + decimal((names.len() - 5) as nat) + " more"@
    }
}

/// The selected dependencies, in the order of `all`.
pub open spec fn chosen_deps(all: Seq<DepSpec>, sel: Set<Seq<char>>) -> Seq<DepSpec>
    decreases all.len(),
{
    if all.len() == 0 {
        Seq::empty()
    } else {
        let prev = chosen_deps(all.drop_last(), sel);
        if sel.contains(all.last().key) {
            prev.push(all.last())
        } else {
            prev
        }
    }
}

fn opt_str(o: &Option<String>) -> (r: Option<&str>)
    ensures
        match r {
            Some(t) => *o matches Some(x) && t@ == x@,
            None => o is None,
        },
{
    match o {
        Some(t) => Some(t.as_str()),
        None => None,
    }
}

impl DepSelection {
    fn is_selected(&self, k: &String) -> (r: bool)
        ensures
            r == self.view_state().selected.contains(k@),
    {
        match position_of(&self.selected, k) {
            Some(i) => {
                assert(string_views(self.selected@)[i as int] == k@);
                true
            },
            None => false,
        }
    }

    /// The lines of the current page.
    pub fn page_rows(&self, pages: &Vec<DepPage>, boot_version: &str) -> (r: Vec<DepRow>)
        requires
            self.page_idx < pages@.len(),
            rows_defined(dep_views(pages@[self.page_idx as int].deps@), boot_version@),
        ensures
            r@.len() == pages@[self.page_idx as int].deps@.len(),
            forall|i: int| 0 <= i < r@.len() ==> #[trigger] row_view(r@[i]) == spec_row(
                self.view_state(),
                dep_views(pages@[self.page_idx as int].deps@),
                boot_version@,
                i,
            ),
    {
        let page = &pages[self.page_idx];
        let ghost pd = dep_views(page.deps@);
        let mut rows: Vec<DepRow> = Vec::new();
        let mut i: usize = 0;
        while i < page.deps.len()
            invariant
                i <= page.deps.len(),
                pd == dep_views(page.deps@),
                rows_defined(pd, boot_version@),
                rows@.len() == i,
                forall|k: int| 0 <= k < i ==> #[trigger] row_view(rows@[k]) == spec_row(self.view_state(), pd, boot_version@, k),
            decreases page.deps.len() - i,
        {
            let d = &page.deps[i];
            assert(pd[i as int] == d@);
            let fits = is_boot_version_in_range(boot_version, opt_str(&d.version_range));
            let requirement = if fits {
                None
            } else {
                let raw = match &d.version_range {
                    Some(t) => t.as_str(),
                    None => "",
                };
                proof {
                    reveal_strlit("");
                }
                assert(raw@ == range_text(d@.version_range));
                Some(format_version_range(raw))
            };
            let row = DepRow {
                text: d.text.clone(),
                compatible: fits,
                selected: self.is_selected(&d.key) && fits,
                at_cursor: i == self.cursor,
                requirement,
            };
            rows.push(row);
            i = i + 1;
        }
        rows
    }

    /// How many keys are selected, and the summary of the selected names.
    pub fn summary(&self, all_deps: &[DepOption]) -> (r: (usize, String))
        ensures
            r.0 == self.selected@.len(),
            r.1@ == summary_text(selected_names(dep_views(all_deps@), self.view_state().selected)),
    {
        let ghost all = dep_views(all_deps@);
        let ghost sel = self.view_state().selected;
        let mut names: Vec<String> = Vec::new();
        let mut i: usize = 0;
        assert(all.take(0) =~= Seq::<DepSpec>::empty());
        assert(string_views(names@) =~= Seq::<Seq<char>>::empty());
        while i < all_deps.len()
            invariant
                i <= all_deps.len(),
                all == dep_views(all_deps@),
                sel == self.view_state().selected,
                string_views(names@) == selected_names(all.take(i as int), sel),
            decreases all_deps.len() - i,
        {
            assert(all.take(i + 1).drop_last() == all.take(i as int));
            assert(all.take(i + 1).last() == all_deps@[i as int]@);
            if self.is_selected(&all_deps[i].key) {
                let t = all_deps[i].text.clone();
                assert(string_views(names@.push(t)) =~= string_views(names@).push(t@));
                names.push(t);
            }
            i = i + 1;
        }
        assert(all.take(all_deps.len() as int) == all);
        let text = if names.len() <= 6 {
            let parts = names.as_slice();
            join(parts, ", ")
        } else {
            let mut first: Vec<String> = Vec::new();
            let mut k: usize = 0;
            while k < 5
                invariant
                    k <= 5 < names.len(),
                    first@.len() == k,
                    forall|j: int| 0 <= j < k ==> #[trigger] first@[j]@ == names@[j]@,
                decreases 5 - k,
            {
                first.push(names[k].clone());
                k = k + 1;
            }
            assert(string_views(first@) =~= string_views(names@).take(5));
            let parts = first.as_slice();
            let mut out = to_chars(join(parts, ", ").as_str());
            extend(&mut out, &to_chars(", ... +"));
            extend(&mut out, &decimal_text(names.len() - 5));
            extend(&mut out, &to_chars(" more"));
            from_chars(&out)
        };
        (self.selected.len(), text)
    }

    /// The selected dependencies, in the order of `all_deps`.
    pub fn chosen(&self, all_deps: &[DepOption]) -> (r: Vec<DepOption>)
        ensures
            dep_views(r@) == chosen_deps(dep_views(all_deps@), self.view_state().selected),
    {
        let ghost all = dep_views(all_deps@);
        let ghost sel = self.view_state().selected;
        let mut out: Vec<DepOption> = Vec::new();
        let mut i: usize = 0;
        assert(all.take(0) =~= Seq::<DepSpec>::empty());
        assert(dep_views(out@) =~= Seq::<DepSpec>::empty());
        while i < all_deps.len()
            invariant
                i <= all_deps.len(),
                all == dep_views(all_deps@),
                sel == self.view_state().selected,
                dep_views(out@) == chosen_deps(all.take(i as int), sel),
            decreases all_deps.len() - i,
        {
            assert(all.take(i + 1).drop_last() == all.take(i as int));
            assert(all.take(i + 1).last() == all_deps@[i as int]@);
            if self.is_selected(&all_deps[i].key) {
                let d = all_deps[i].clone_dep();
                assert(dep_views(out@.push(d)) =~= dep_views(out@).push(d@));
                out.push(d);
            }
            i = i + 1;
        }
        assert(all.take(all_deps.len() as int) == all);
        out
    }
}

// ── Around the prompts ──

pub open spec fn choice_keys(options: Seq<(Seq<char>, Seq<char>)>) -> Seq<Seq<char>> {
    options.map_values(|o: (Seq<char>, Seq<char>)| o.0)
}

/// Where a single-choice prompt starts: on the default, else on the first choice.
pub fn default_index(options: &[Option_], default_key: &str) -> (r: usize)
    ensures
        choice_keys(option_views(options@)).contains(default_key@) ==> r < options@.len()
            && options@[r as int].key@ == default_key@
            && forall|j: int| 0 <= j < r ==> options@[j].key@ != default_key@,
        !choice_keys(option_views(options@)).contains(default_key@) ==> r == 0,
{
    let k = default_key.to_owned();
    let ghost ks = choice_keys(option_views(options@));
    let mut i: usize = 0;
    while i < options.len()
        invariant
            i <= options.len(),
            k@ == default_key@,
            ks == choice_keys(option_views(options@)),
            forall|j: int| 0 <= j < i ==> options@[j].key@ != default_key@,
        decreases options.len() - i,
    {
        if options[i].key == k {
            assert(ks[i as int] == options@[i as int].key@);
            return i;
        }
        i = i + 1;
    }
    assert forall|x: Seq<char>| ks.contains(x) implies x != default_key@ by {
        let j = choose|j: int| 0 <= j < ks.len() && ks[j] == x;
        assert(ks[j] == options@[j].key@);
    }
    0
}

/// The text of the IDE choices, with the command each stands for: none,
/// IntelliJ IDEA and VS Code where found, and another command.
pub open spec fn spec_ide_choices(idea: bool, code: bool) -> Seq<(Seq<char>, Option<Seq<char>>)> {
    seq![("None"@, None::<Seq<char>>)] + (if idea {
        seq![("idea (IntelliJ IDEA)"@, Some("idea"@))]
    } else {
        Seq::empty()
    }) + (if code {
        seq![("code (VS Code)"@, Some("code"@))]
    } else {
        Seq::empty()
    }) + seq![("Other"@, Some("other"@))]
}

pub open spec fn ide_choice_views(v: Seq<(String, Option<String>)>) -> Seq<(Seq<char>, Option<Seq<char>>)> {
    v.map_values(|c: (String, Option<String>)| (c.0@, match c.1 {
        Some(t) => Some(t@),
        None => None,
    }))
}

pub fn ide_choices(idea_available: bool, code_available: bool) -> (r: Vec<(String, Option<String>)>)
    ensures
        ide_choice_views(r@) == spec_ide_choices(idea_available, code_available),
{
    let mut out: Vec<(String, Option<String>)> = Vec::new();
    out.push(("None".to_owned(), None));
    if idea_available {
        out.push(("idea (IntelliJ IDEA)".to_owned(), Some("idea".to_owned())));
    }
    if code_available {
        out.push(("code (VS Code)".to_owned(), Some("code".to_owned())));
    }
    out.push(("Other".to_owned(), Some("other".to_owned())));
    assert(ide_choice_views(out@) =~= spec_ide_choices(idea_available, code_available));
    out
}

} // verus!
