//! The applet checklist a user edits before flashing: one row per installed
//! or bundled SmartApplet, and the flash plan that the ticks amount to.

use vstd::prelude::*;
use vstd::relations::sorted_by;
use crate::catalog::BundledApplet;
use crate::protocol::SmartAppletRecord;
use crate::text::{hex_digits, push_hex, text_le, text_le_exec, lemma_text_le_total, lemma_text_le_transitive, trim_text, trimmed};

verus! {

broadcast use vstd::multiset::group_multiset_axioms;

/// Where the bytes of a checklist row would come from when flashing.
#[derive(Clone, Debug, PartialEq, Eq)]
pub enum AppletSourceKind {
    InstalledOnly { applet_id: u16 },
    Bundled { id: String },
    AddedFromFile { path: String },
}

/// One SmartApplet in the checklist.
#[derive(Clone, Debug, PartialEq, Eq)]
pub struct AppletChecklistRow {
    pub key: String,
    pub display_name: String,
    pub version: Option<String>,
    pub size: Option<u64>,
    pub installed: bool,
    pub checked: bool,
    pub source: AppletSourceKind,
}

/// The rows of the checklist, in order of display name.
#[derive(Clone, Debug, PartialEq, Eq)]
pub struct AppletChecklist {
    pub rows: Vec<AppletChecklistRow>,
}

/// What flashing the checklist will do.
#[derive(Clone, Copy, Debug, PartialEq, Eq, Structural)]
pub enum AppletFlashPlan {
    NoChanges,
    InstallOnly { count: usize },
    ClearAndReinstall { count: usize },
}

/// The text of an optional string.
pub open spec fn opt_text(o: Option<String>) -> Option<Seq<char>> {
    match o {
        Some(s) => Some(s@),
        None => None,
    }
}

/// The index of the first bundled applet that carries applet id `id`, or -1.
pub open spec fn first_bundled_for(s: Seq<BundledApplet>, id: u16) -> int
    decreases s.len(),
{
    if s.len() == 0 {
        -1
    } else {
        let f = first_bundled_for(s.drop_last(), id);
        if f >= 0 {
            f
        } else if s.last().applet_id == Some(id) {
            s.len() - 1
        } else {
            -1
        }
    }
}

/// The row of an installed applet: keyed and sourced by the first bundled
/// applet with its id, if there is one, and ticked.
pub open spec fn is_installed_row(row: AppletChecklistRow, rec: SmartAppletRecord, bundled: Seq<BundledApplet>) -> bool {
    let f = first_bundled_for(bundled, rec.applet_id);
    &&& row.key@ == (if f >= 0 { bundled[f].id@ } else { "installed-"@ + hex_digits(rec.applet_id as nat, 4) })
    &&& row.display_name@ == rec.name@
    &&& opt_text(row.version) == Some(rec.version@)
    &&& row.size == Some(rec.file_size as u64)
    &&& row.installed
    &&& row.checked
    &&& if f >= 0 {
        row.source matches AppletSourceKind::Bundled { id } && id@ == bundled[f].id@
    } else {
        row.source == AppletSourceKind::InstalledOnly { applet_id: rec.applet_id }
    }
}

/// The row of a bundled applet that is not installed: not ticked.
pub open spec fn is_bundled_row(row: AppletChecklistRow, a: BundledApplet) -> bool {
    &&& row.key@ == a.id@
    &&& row.display_name@ == a.name@
    &&& opt_text(row.version) == opt_text(a.version)
    &&& row.size == a.size
    &&& !row.installed
    &&& !row.checked
    &&& row.source matches AppletSourceKind::Bundled { id } && id@ == a.id@
}

/// Whether some row of `u` has key `key`.
pub open spec fn has_key(u: Seq<AppletChecklistRow>, key: Seq<char>) -> bool {
    exists|k: int| 0 <= k < u.len() && #[trigger] u[k].key@ == key
}

/// Whether `u` is the first `n0` rows followed by one row for each applet of
/// `bundled`, in order, whose id is not yet a key.
pub open spec fn extends_with_bundled(u: Seq<AppletChecklistRow>, n0: int, bundled: Seq<BundledApplet>) -> bool
    decreases bundled.len(),
{
    if bundled.len() == 0 {
        u.len() == n0
    } else {
        let a = bundled.last();
        ||| extends_with_bundled(u, n0, bundled.drop_last()) && has_key(u, a.id@)
        ||| u.len() > n0 && extends_with_bundled(u.drop_last(), n0, bundled.drop_last())
            && !has_key(u.drop_last(), a.id@) && is_bundled_row(u.last(), a)
    }
}

/// The rows of the checklist before they are ordered: one per installed
/// applet, then the bundled applets that are not installed.
pub open spec fn checklist_rows(u: Seq<AppletChecklistRow>, installed: Seq<SmartAppletRecord>, bundled: Seq<BundledApplet>) -> bool {
    &&& u.len() >= installed.len()
    &&& forall|i: int| 0 <= i < installed.len() ==> is_installed_row(#[trigger] u[i], installed[i], bundled)
    &&& extends_with_bundled(u, installed.len() as int, bundled)
}

/// Whether a row is named `n`.
pub open spec fn named(n: Seq<char>) -> spec_fn(AppletChecklistRow) -> bool {
    |x: AppletChecklistRow| x.display_name@ == n
}

/// Inserting `x` where no row before it has its name puts it first among
/// the rows of its name and leaves the rows of other names as they were.
proof fn lemma_filter_insert_named(o: Seq<AppletChecklistRow>, p: int, x: AppletChecklistRow, n: Seq<char>)
    requires
        0 <= p <= o.len(),
        forall|q: int| 0 <= q < p ==> (#[trigger] o[q]).display_name@ != x.display_name@,
    ensures
        o.insert(p, x).filter(named(n)) == if x.display_name@ == n {
            seq![x] + o.filter(named(n))
        } else {
            o.filter(named(n))
        },
{
    let a = o.subrange(0, p);
    let b = o.subrange(p, o.len() as int);
    assert(o =~= a + b);
    assert(o.insert(p, x) =~= a + (seq![x] + b));
    Seq::filter_distributes_over_add(a, b, named(n));
    Seq::filter_distributes_over_add(a, seq![x] + b, named(n));
    b.lemma_filter_prepend(x, named(n));
    if x.display_name@ == n {
        assert forall|q: int| 0 <= q < a.len() implies !named(n)(#[trigger] a[q]) by {
            assert(a[q] == o[q]);
        }
        a.lemma_all_neg_filter_empty(named(n));
        assert(a.filter(named(n)) =~= Seq::<AppletChecklistRow>::empty());
        assert(seq![x] + o.filter(named(n)) =~= a.filter(named(n)) + (seq![x] + b.filter(named(n))));
    } else {
        assert(o.filter(named(n)) =~= a.filter(named(n)) + (Seq::<AppletChecklistRow>::empty() + b.filter(named(n))));
    }
}

/// Rows ordered by display name.
pub open spec fn by_name() -> spec_fn(AppletChecklistRow, AppletChecklistRow) -> bool {
    |a: AppletChecklistRow, b: AppletChecklistRow| text_le(a.display_name@, b.display_name@)
}

/// The number of installed rows that are not ticked.
pub open spec fn unchecked_installed(s: Seq<AppletChecklistRow>) -> nat
    decreases s.len(),
{
    if s.len() == 0 {
        0
    } else {
        unchecked_installed(s.drop_last()) + (if s.last().installed && !s.last().checked { 1nat } else { 0nat })
    }
}

/// The number of ticked rows that are not installed.
pub open spec fn new_checked(s: Seq<AppletChecklistRow>) -> nat
    decreases s.len(),
{
    if s.len() == 0 {
        0
    } else {
        new_checked(s.drop_last()) + (if !s.last().installed && s.last().checked { 1nat } else { 0nat })
    }
}

/// The number of ticked rows.
pub open spec fn all_checked(s: Seq<AppletChecklistRow>) -> nat
    decreases s.len(),
{
    if s.len() == 0 {
        0
    } else {
        all_checked(s.drop_last()) + (if s.last().checked { 1nat } else { 0nat })
    }
}

/// The plan for a checklist: nothing to do when every installed applet stays
/// and nothing new is ticked; installing alone when only new applets are
/// ticked; otherwise clearing the applet area and installing every ticked row.
pub open spec fn plan_of(s: Seq<AppletChecklistRow>) -> AppletFlashPlan {
    if unchecked_installed(s) == 0 && new_checked(s) == 0 {
        AppletFlashPlan::NoChanges
    } else if unchecked_installed(s) == 0 {
        AppletFlashPlan::InstallOnly { count: new_checked(s) as usize }
    } else {
        AppletFlashPlan::ClearAndReinstall { count: all_checked(s) as usize }
    }
}

proof fn lemma_counts_bounded(s: Seq<AppletChecklistRow>)
    ensures
        unchecked_installed(s) <= s.len(),
        new_checked(s) <= s.len(),
        all_checked(s) <= s.len(),
    decreases s.len(),
{
    if s.len() > 0 {
        lemma_counts_bounded(s.drop_last());
    }
}

proof fn lemma_first_bundled_bounds(s: Seq<BundledApplet>, id: u16)
    ensures
        -1 <= first_bundled_for(s, id) < s.len(),
        first_bundled_for(s, id) >= 0 ==> s[first_bundled_for(s, id)].applet_id == Some(id)
            && forall|j: int| 0 <= j < first_bundled_for(s, id) ==> (#[trigger] s[j]).applet_id != Some(id),
        first_bundled_for(s, id) < 0 ==> forall|j: int| 0 <= j < s.len() ==> (#[trigger] s[j]).applet_id != Some(id),
    decreases s.len(),
{
    if s.len() > 0 {
        lemma_first_bundled_bounds(s.drop_last(), id);
        let p = s.drop_last();
        assert forall|j: int| 0 <= j < p.len() implies p[j] == s[j] by {}
    }
}

/// The row for installed applet `rec`.
fn installed_row(rec: &SmartAppletRecord, bundled: &[BundledApplet]) -> (row: AppletChecklistRow)
    ensures
        is_installed_row(row, *rec, bundled@),
{
    proof {
        lemma_first_bundled_bounds(bundled@, rec.applet_id);
    }
    let mut j: usize = 0;
    let mut found = false;
    while j < bundled.len() && !found
        invariant
            j <= bundled@.len(),
            found ==> j < bundled@.len() && bundled@[j as int].applet_id == Some(rec.applet_id),
            forall|q: int| 0 <= q < j ==> (#[trigger] bundled@[q]).applet_id != Some(rec.applet_id),
        decreases bundled@.len() - j + (if found { 0int } else { 1int }),
    {
        if bundled[j].applet_id == Some(rec.applet_id) {
            found = true;
        } else {
            j = j + 1;
        }
    }
    let version = Some(rec.version.clone());
    if found {
        assert(first_bundled_for(bundled@, rec.applet_id) == j);
        AppletChecklistRow {
            key: bundled[j].id.clone(),
            display_name: rec.name.clone(),
            version,
            size: Some(rec.file_size as u64),
            installed: true,
            checked: true,
            source: AppletSourceKind::Bundled { id: bundled[j].id.clone() },
        }
    } else {
        assert(first_bundled_for(bundled@, rec.applet_id) < 0);
        let mut key = String::from_str("installed-");
        push_hex(&mut key, rec.applet_id as u64, 4);
        AppletChecklistRow {
            key,
            display_name: rec.name.clone(),
            version,
            size: Some(rec.file_size as u64),
            installed: true,
            checked: true,
            source: AppletSourceKind::InstalledOnly { applet_id: rec.applet_id },
        }
    }
}

/// The row for bundled applet `a`, which is not installed.
fn bundled_row(a: &BundledApplet) -> (row: AppletChecklistRow)
    ensures
        is_bundled_row(row, *a),
{
    let version = match &a.version {
        Some(v) => Some(v.clone()),
        None => None,
    };
    AppletChecklistRow {
        key: a.id.clone(),
        display_name: a.name.clone(),
        version,
        size: a.size,
        installed: false,
        checked: false,
        source: AppletSourceKind::Bundled { id: a.id.clone() },
    }
}

/// Whether some row has key `key`.
fn contains_key(rows: &Vec<AppletChecklistRow>, key: &String) -> (r: bool)
    ensures
        r == has_key(rows@, key@),
{
    let mut i: usize = 0;
    while i < rows.len()
        invariant
            i <= rows@.len(),
            forall|k: int| 0 <= k < i ==> (#[trigger] rows@[k]).key@ != key@,
        decreases rows@.len() - i,
    {
        if rows[i].key == *key {
            return true;
        }
        i = i + 1;
    }
    false
}

/// Sorts rows by display name, keeping rows with equal names in order.
fn sort_rows_by_name(rows: Vec<AppletChecklistRow>) -> (r: Vec<AppletChecklistRow>)
    ensures
        r@.to_multiset() == rows@.to_multiset(),
        sorted_by(r@, by_name()),
        forall|n: Seq<char>| #[trigger] r@.filter(named(n)) == rows@.filter(named(n)),
{
    let ghost orig = rows@;
    let mut rest = rows;
    let mut out: Vec<AppletChecklistRow> = Vec::new();
    proof {
        vstd::seq_lib::to_multiset_len(out@);
        vstd::multiset::lemma_multiset_empty_len(out@.to_multiset());
        assert(rest@.to_multiset().add(out@.to_multiset()) =~= orig.to_multiset());
        assert forall|n: Seq<char>| #[trigger] rest@.filter(named(n)) + out@.filter(named(n)) == orig.filter(named(n)) by {
            assert(out@.filter(named(n)) =~= Seq::<AppletChecklistRow>::empty());
            assert(rest@.filter(named(n)) + out@.filter(named(n)) =~= rest@.filter(named(n)));
        }
    }
    while rest.len() > 0
        invariant
            rest@.to_multiset().add(out@.to_multiset()) == orig.to_multiset(),
            sorted_by(out@, by_name()),
            forall|n: Seq<char>| #[trigger] rest@.filter(named(n)) + out@.filter(named(n)) == orig.filter(named(n)),
        decreases rest@.len(),
    {
        let ghost rest0 = rest@;
        let ghost out0 = out@;
        let x = rest.pop().unwrap();
        assert(rest0 =~= rest@.push(x));
        let mut p: usize = 0;
        while p < out.len() && !text_le_exec(x.display_name.as_str(), out[p].display_name.as_str())
            invariant
                p <= out@.len(),
                out@ == out0,
                forall|q: int| 0 <= q < p ==> !text_le(x.display_name@, (#[trigger] out@[q]).display_name@),
            decreases out@.len() - p,
        {
            p = p + 1;
        }
        proof {
            assert forall|q: int| 0 <= q < p implies text_le((#[trigger] out0[q]).display_name@, x.display_name@) by {
                lemma_text_le_total(x.display_name@, out0[q].display_name@);
            }
            assert forall|q: int| p <= q < out0.len() implies text_le(x.display_name@, (#[trigger] out0[q]).display_name@) by {
                if q > p {
                    assert(by_name()(out0[p as int], out0[q]));
                    lemma_text_le_transitive(x.display_name@, out0[p as int].display_name@, out0[q].display_name@);
                }
            }
        }
        proof {
            assert forall|q: int| 0 <= q < p implies (#[trigger] out0[q]).display_name@ != x.display_name@ by {
                lemma_text_le_total(x.display_name@, x.display_name@);
            }
            assert forall|n: Seq<char>| #[trigger] rest@.filter(named(n)) + out0.insert(p as int, x).filter(named(n))
                == orig.filter(named(n)) by {
                lemma_filter_insert_named(out0, p as int, x, n);
                rest@.lemma_filter_push(x, named(n));
                assert(rest0.filter(named(n)) + out0.filter(named(n)) == orig.filter(named(n)));
                if x.display_name@ == n {
                    assert(rest@.filter(named(n)) + (seq![x] + out0.filter(named(n))) =~= rest@.filter(named(n)).push(x)
                        + out0.filter(named(n)));
                }
            }
        }
        out.insert(p, x);
        proof {
            vstd::seq_lib::to_multiset_insert(out0, p as int, x);
            vstd::seq_lib::to_multiset_build(rest@, x);
            assert(rest@.to_multiset().add(out@.to_multiset()) =~= orig.to_multiset());
            let o = out@;
            assert forall|i: int, j: int| 0 <= i < j < o.len() implies #[trigger] by_name()(o[i], o[j]) by {
                if i < p && j < p {
                    assert(o[i] == out0[i] && o[j] == out0[j]);
                    assert(by_name()(out0[i], out0[j]));
                } else if i < p && j == p {
                    assert(o[i] == out0[i]);
                } else if i < p && j > p {
                    assert(o[i] == out0[i] && o[j] == out0[j - 1]);
                    assert(by_name()(out0[i], out0[j - 1]));
                } else if i == p {
                    assert(o[j] == out0[j - 1]);
                } else {
                    assert(o[i] == out0[i - 1] && o[j] == out0[j - 1]);
                    assert(by_name()(out0[i - 1], out0[j - 1]));
                }
            }
        }
    }
    proof {
        vstd::seq_lib::to_multiset_len(rest@);
        vstd::multiset::lemma_multiset_empty_len(rest@.to_multiset());
        assert forall|n: Seq<char>| #[trigger] out@.filter(named(n)) == orig.filter(named(n)) by {
            assert(rest@ =~= Seq::<AppletChecklistRow>::empty());
            assert(rest@.filter(named(n)) =~= Seq::<AppletChecklistRow>::empty());
            assert(rest@.filter(named(n)) + out@.filter(named(n)) =~= out@.filter(named(n)));
        }
    }
    assert(out@.to_multiset() =~= orig.to_multiset());
    out
}

impl AppletChecklist {
    /// The checklist for a device: every installed applet, ticked, and every
    /// bundled applet that is not installed, not ticked; ordered by name,
    /// rows of the same name kept in that order.
    pub fn from_installed_and_bundled(installed: &[SmartAppletRecord], bundled: &[BundledApplet]) -> (r: Self)
        ensures
            exists|u: Seq<AppletChecklistRow>|
                checklist_rows(u, installed@, bundled@) && #[trigger] u.to_multiset() == r.rows@.to_multiset()
                    && forall|n: Seq<char>| #[trigger] r.rows@.filter(named(n)) == u.filter(named(n)),
            sorted_by(r.rows@, by_name()),
            forall|i: int| 0 <= i < r.rows@.len() ==> (#[trigger] r.rows@[i]).installed == r.rows@[i].checked,
    {
        let mut rows: Vec<AppletChecklistRow> = Vec::new();
        let mut i: usize = 0;
        while i < installed.len()
            invariant
                i <= installed@.len(),
                rows@.len() == i,
                forall|k: int| 0 <= k < i ==> is_installed_row(#[trigger] rows@[k], installed@[k], bundled@),
            decreases installed@.len() - i,
        {
            rows.push(installed_row(&installed[i], bundled));
            i = i + 1;
        }
        let n = rows.len();
        let mut j: usize = 0;
        assert(bundled@.subrange(0, 0) =~= Seq::<BundledApplet>::empty());
        while j < bundled.len()
            invariant
                j <= bundled@.len(),
                n == installed@.len(),
                rows@.len() >= n,
                forall|k: int| 0 <= k < n ==> is_installed_row(#[trigger] rows@[k], installed@[k], bundled@),
                extends_with_bundled(rows@, n as int, bundled@.subrange(0, j as int)),
                forall|k: int| 0 <= k < rows@.len() ==> (#[trigger] rows@[k]).installed == rows@[k].checked,
            decreases bundled@.len() - j,
        {
            let ghost before = rows@;
            let ghost b1 = bundled@.subrange(0, j + 1);
            assert(b1.drop_last() =~= bundled@.subrange(0, j as int));
            assert(b1.last() == bundled@[j as int]);
            if !contains_key(&rows, &bundled[j].id) {
                rows.push(bundled_row(&bundled[j]));
                assert(rows@.drop_last() =~= before);
                assert forall|k: int| 0 <= k < n implies is_installed_row(#[trigger] rows@[k], installed@[k], bundled@) by {
                    assert(rows@[k] == before[k]);
                }
            } else {
                assert(has_key(rows@, bundled@[j as int].id@));
            }
            j = j + 1;
        }
        assert(bundled@.subrange(0, bundled@.len() as int) =~= bundled@);
        let ghost u = rows@;
        let sorted = sort_rows_by_name(rows);
        proof {
            assert(checklist_rows(u, installed@, bundled@));
            assert forall|i: int| 0 <= i < sorted@.len() implies (#[trigger] sorted@[i]).installed == sorted@[i].checked by {
                vstd::seq_lib::to_multiset_contains(sorted@, sorted@[i]);
                vstd::seq_lib::to_multiset_contains(u, sorted@[i]);
                assert(sorted@.to_multiset().count(sorted@[i]) > 0);
                let k = choose|k: int| 0 <= k < u.len() && u[k] == sorted@[i];
                assert(u[k].installed == u[k].checked);
            }
        }
        AppletChecklist { rows: sorted }
    }

    /// The checklist with the first row keyed `key` ticked or unticked; the
    /// same checklist when no row has that key.
    pub fn with_checked(self, key: &str, checked: bool) -> (r: Self)
        ensures
            match first_key(self.rows@, key@) {
                Some(i) => r.rows@ == self.rows@.update(i, AppletChecklistRow { checked, ..self.rows@[i] }),
                None => r.rows@ == self.rows@,
            },
    {
        let mut rows = self.rows;
        let wanted = String::from_str(key);
        let mut i: usize = 0;
        while i < rows.len()
            invariant
                i <= rows@.len(),
                rows@ == self.rows@,
                wanted@ == key@,
                forall|k: int| 0 <= k < i ==> (#[trigger] rows@[k]).key@ != key@,
            decreases rows@.len() - i,
        {
            if rows[i].key == wanted {
                proof {
                    lemma_first_key_is(rows@, key@, i as int);
                }
                let mut row = rows.remove(i);
                row.checked = checked;
                rows.insert(i, row);
                assert(rows@ =~= self.rows@.update(i as int, AppletChecklistRow { checked, ..self.rows@[i as int] }));
                return AppletChecklist { rows };
            }
            i = i + 1;
        }
        proof {
            lemma_first_key_none(rows@, key@);
        }
        AppletChecklist { rows }
    }

    /// Whether flashing must clear the applet area first: some installed
    /// applet is unticked.
    pub fn requires_clear(&self) -> (r: bool)
        ensures
            r == exists|i: int| 0 <= i < self.rows@.len() && (#[trigger] self.rows@[i]).installed && !self.rows@[i].checked,
    {
        let mut i: usize = 0;
        while i < self.rows.len()
            invariant
                i <= self.rows@.len(),
                forall|j: int| 0 <= j < i ==> !((#[trigger] self.rows@[j]).installed && !self.rows@[j].checked),
            decreases self.rows@.len() - i,
        {
            if self.rows[i].installed && !self.rows[i].checked {
                return true;
            }
            i = i + 1;
        }
        false
    }

    /// What flashing the checklist will do.
    pub fn plan(&self) -> (r: AppletFlashPlan)
        ensures
            r == plan_of(self.rows@),
    {
        let mut unchecked: usize = 0;
        let mut added: usize = 0;
        let mut ticked: usize = 0;
        let mut i: usize = 0;
        while i < self.rows.len()
            invariant
                i <= self.rows@.len(),
                unchecked == unchecked_installed(self.rows@.subrange(0, i as int)),
                added == new_checked(self.rows@.subrange(0, i as int)),
                ticked == all_checked(self.rows@.subrange(0, i as int)),
            decreases self.rows@.len() - i,
        {
            let ghost s1 = self.rows@.subrange(0, i + 1);
            assert(s1.drop_last() =~= self.rows@.subrange(0, i as int));
            proof {
                lemma_counts_bounded(self.rows@.subrange(0, i as int));
            }
            if self.rows[i].installed && !self.rows[i].checked {
                unchecked = unchecked + 1;
            }
            if !self.rows[i].installed && self.rows[i].checked {
                added = added + 1;
            }
            if self.rows[i].checked {
                ticked = ticked + 1;
            }
            i = i + 1;
        }
        assert(self.rows@.subrange(0, self.rows@.len() as int) =~= self.rows@);
        if unchecked == 0 && added == 0 {
            AppletFlashPlan::NoChanges
        } else if unchecked == 0 {
            AppletFlashPlan::InstallOnly { count: added }
        } else {
            AppletFlashPlan::ClearAndReinstall { count: ticked }
        }
    }
}

/// The index of the first row keyed `key`.
pub open spec fn first_key(s: Seq<AppletChecklistRow>, key: Seq<char>) -> Option<int>
    decreases s.len(),
{
    if s.len() == 0 {
        None
    } else {
        match first_key(s.drop_last(), key) {
            Some(i) => Some(i),
            None => if s.last().key@ == key { Some(s.len() - 1) } else { None },
        }
    }
}

proof fn lemma_first_key_is(s: Seq<AppletChecklistRow>, key: Seq<char>, i: int)
    requires
        0 <= i < s.len(),
        s[i].key@ == key,
        forall|k: int| 0 <= k < i ==> (#[trigger] s[k]).key@ != key,
    ensures
        first_key(s, key) == Some(i),
    decreases s.len(),
{
    if i < s.len() - 1 {
        let p = s.drop_last();
        assert forall|k: int| 0 <= k <= i implies #[trigger] p[k] == s[k] by {}
        lemma_first_key_is(p, key, i);
    } else {
        lemma_first_key_none(s.drop_last(), key);
    }
}

proof fn lemma_first_key_none(s: Seq<AppletChecklistRow>, key: Seq<char>)
    requires
        forall|k: int| 0 <= k < s.len() ==> (#[trigger] s[k]).key@ != key,
    ensures
        first_key(s, key) is None,
    decreases s.len(),
{
    if s.len() > 0 {
        let p = s.drop_last();
        assert forall|k: int| 0 <= k < p.len() implies (#[trigger] p[k]).key@ != key by {
            assert(p[k] == s[k]);
        }
        lemma_first_key_none(p, key);
    }
}

/// Laws of the checklist.
///
/// A checklist in which every row is ticked exactly when its applet is
/// installed, as `from_installed_and_bundled` builds it, plans no changes.
pub proof fn lemma_fresh_checklist_plans_no_changes(rows: Seq<AppletChecklistRow>)
    requires
        forall|i: int| 0 <= i < rows.len() ==> (#[trigger] rows[i]).installed == rows[i].checked,
    ensures
        plan_of(rows) == AppletFlashPlan::NoChanges,
    decreases rows.len(),
{
    if rows.len() > 0 {
        let p = rows.drop_last();
        assert forall|i: int| 0 <= i < p.len() implies (#[trigger] p[i]).installed == p[i].checked by {
            assert(p[i] == rows[i]);
        }
        lemma_fresh_checklist_plans_no_changes(p);
    }
}

/// Ticking a row that is not installed, in a checklist that plans no
/// changes, plans installing exactly that one applet.
pub proof fn lemma_ticking_one_new_row_installs_only_it(rows: Seq<AppletChecklistRow>, i: int)
    requires
        0 <= i < rows.len(),
        !rows[i].installed,
        plan_of(rows) == AppletFlashPlan::NoChanges,
    ensures
        plan_of(rows.update(i, AppletChecklistRow { checked: true, ..rows[i] }))
            == (AppletFlashPlan::InstallOnly { count: 1 }),
    decreases rows.len(),
{
    lemma_tick_counts(rows, i);
}

proof fn lemma_tick_counts(rows: Seq<AppletChecklistRow>, i: int)
    requires
        0 <= i < rows.len(),
        !rows[i].installed,
        unchecked_installed(rows) == 0,
        new_checked(rows) == 0,
    ensures
        unchecked_installed(rows.update(i, AppletChecklistRow { checked: true, ..rows[i] })) == 0,
        new_checked(rows.update(i, AppletChecklistRow { checked: true, ..rows[i] })) == 1,
    decreases rows.len(),
{
    let u = rows.update(i, AppletChecklistRow { checked: true, ..rows[i] });
    if i == rows.len() - 1 {
        assert(u.drop_last() =~= rows.drop_last());
    } else {
        assert(u.drop_last() =~= rows.drop_last().update(i, AppletChecklistRow { checked: true, ..rows[i] }));
        lemma_tick_counts(rows.drop_last(), i);
    }
}


/// What clicking "Flash to device" does.
#[derive(Clone, Copy, Debug, PartialEq, Eq, Structural)]
pub enum FlashClick {
    /// Nothing to flash.
    Nothing,
    /// Install the ticked applets that are not installed yet.
    InstallSelected,
    /// Refuse: `count` ticked applets have no image to reinstall from.
    MissingSources { count: usize },
    /// Ask the user to confirm clearing the applet area and reinstalling.
    ConfirmClearReinstall,
}

/// The number of ticked rows of `rows` whose image is not available, row
/// `i` having an image when `available[i]` holds.
pub open spec fn ticked_without_source(rows: Seq<AppletChecklistRow>, available: Seq<bool>) -> nat
    decreases rows.len(),
{
    if rows.len() == 0 {
        0
    } else {
        let i = rows.len() - 1;
        ticked_without_source(rows.drop_last(), available) + (if rows[i].checked && !(i < available.len()
            && available[i]) {
            1nat
        } else {
            0nat
        })
    }
}

/// Counts the ticked rows whose image is not available (`available[i]`
/// for row `i`; a row past the end of `available` has none).
pub fn count_ticked_without_source(rows: &Vec<AppletChecklistRow>, available: &Vec<bool>) -> (r: usize)
    ensures
        r == ticked_without_source(rows@, available@),
{
    let mut count: usize = 0;
    let mut i: usize = 0;
    while i < rows.len()
        invariant
            i <= rows@.len(),
            count == ticked_without_source(rows@.subrange(0, i as int), available@),
            count <= i,
        decreases rows@.len() - i,
    {
        assert(rows@.subrange(0, i + 1).drop_last() =~= rows@.subrange(0, i as int));
        if rows[i].checked && !(i < available.len() && available[i]) {
            count = count + 1;
        }
        i = i + 1;
    }
    assert(rows@.subrange(0, i as int) =~= rows@);
    count
}

/// What clicking "Flash to device" does for `plan`, `missing` ticked
/// applets having no image: a clear-and-reinstall with missing images is
/// refused, one without asks for confirmation.
pub fn flash_click(plan: AppletFlashPlan, missing: usize) -> (r: FlashClick)
    ensures
        r == match plan {
            AppletFlashPlan::NoChanges => FlashClick::Nothing,
            AppletFlashPlan::InstallOnly { .. } => FlashClick::InstallSelected,
            AppletFlashPlan::ClearAndReinstall { .. } => if missing > 0 {
                FlashClick::MissingSources { count: missing }
            } else {
                FlashClick::ConfirmClearReinstall
            },
        },
{
    match plan {
        AppletFlashPlan::NoChanges => FlashClick::Nothing,
        AppletFlashPlan::InstallOnly { .. } => FlashClick::InstallSelected,
        AppletFlashPlan::ClearAndReinstall { .. } => {
            if missing > 0 {
                FlashClick::MissingSources { count: missing }
            } else {
                FlashClick::ConfirmClearReinstall
            }
        },
    }
}

/// What `std::path::Path::extension` finds in a path: the text after the
/// last dot of its file name, if the name has a dot that does not start it.
pub uninterp spec fn path_extension(path: Seq<char>) -> Option<Seq<char>>;

/// The extension of a path (`std::path::Path::extension`), as text. The
/// result is named by `path_extension`; nothing more is stated of it.
#[verifier::external_body]
fn extension_of(path: &str) -> (r: Option<String>)
    ensures
        opt_text(r) == path_extension(path@),
{
    match std::path::Path::new(path).extension() {
        Some(ext) => match ext.to_str() {
            Some(text) => Some(text.to_string()),
            None => None,
        },
        None => None,
    }
}

/// Why a custom applet file could not be added.
#[derive(Clone, Debug, PartialEq, Eq)]
pub enum CustomAppletError {
    /// The path does not name a `.os3kapp` file.
    NotAppletFile,
    /// No file exists at the path.
    Missing { path: String },
}

impl CustomAppletError {
    /// The sentence shown to the user.
    pub fn message(&self) -> (r: String)
        ensures
            self is NotAppletFile ==> r@ == "custom applet must be a .os3kapp file"@,
            self matches CustomAppletError::Missing { path } ==> r@ == "custom applet does not exist: "@ + path@,
    {
        match self {
            CustomAppletError::NotAppletFile => String::from_str("custom applet must be a .os3kapp file"),
            CustomAppletError::Missing { path } => {
                let mut r = String::from_str("custom applet does not exist: ");
                r.append(path.as_str());
                r
            },
        }
    }
}

/// The path of a custom applet the user typed, trimmed, when its extension
/// is `os3kapp`; whether a file exists there is for the caller to look up.
pub fn custom_applet_path(typed: &str) -> (r: Result<String, CustomAppletError>)
    ensures
        path_extension(trimmed(typed@)) == Some("os3kapp"@) ==> (r matches Ok(p) && p@ == trimmed(typed@)),
        path_extension(trimmed(typed@)) != Some("os3kapp"@) ==> r == Err::<String, CustomAppletError>(
            CustomAppletError::NotAppletFile,
        ),
{
    let path = trim_text(typed);
    let ok = match extension_of(path.as_str()) {
        Some(ext) => crate::text::text_eq(ext.as_str(), "os3kapp"),
        None => false,
    };
    proof {
        reveal_strlit("os3kapp");
    }
    if ok {
        Ok(path)
    } else {
        Err(CustomAppletError::NotAppletFile)
    }
}

/// The checklist key of an applet added from the file at `path`.
pub fn custom_applet_key(path: &str) -> (r: String)
    ensures
        r@ == "file-"@ + path@,
{
    let mut r = String::from_str("file-");
    r.append(path);
    r
}
} // verus!
