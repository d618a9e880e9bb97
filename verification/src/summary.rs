//! The Save tab's summary of what will be installed: one labelled line per
//! group, as the drawing layer shows them.
use crate::app::{app_wf, in_scope, App, AppView};
use crate::catalog::{is_always_category, Catalog, Category, Item};
use crate::selection::Toggles;
use crate::text::{decimal, join, join_strings, push_decimal, string_views};
use vstd::prelude::*;

verus! {

/// One line of the summary: a label and its text.
pub struct SummaryLine {
    pub label: String,
    pub text: String,
}

pub open spec fn line_view(l: SummaryLine) -> (Seq<char>, Seq<char>) {
    (l.label@, l.text@)
}

/// How many items the `always` categories hold.
pub open spec fn always_count(c: Catalog) -> nat {
    c.items@.filter(|i: Item| is_always_category(c.categories@, i.category@)).len()
}

/// How many items category `id` holds.
pub open spec fn count_all(v: AppView, id: Seq<char>) -> nat {
    v.catalog.items@.filter(|it: Item| in_scope(v.catalog, Some(id), it)).len()
}

/// How many of them are selected.
pub open spec fn count_on(v: AppView, id: Seq<char>) -> nat {
    v.catalog.items@.filter(
        |it: Item| in_scope(v.catalog, Some(id), it) && v.sel.selected.contains(it.id@),
    ).len()
}

/// Names of the selected items of category `id`, in catalog order.
pub open spec fn selected_names(v: AppView, id: Seq<char>) -> Seq<Seq<char>> {
    v.catalog.items@.filter(|i: Item| i.category@ == id).filter(
        |i: Item| v.sel.selected.contains(i.id@),
    ).map_values(|i: Item| i.name@)
}

/// One line per category of `cats` with anything selected: its title with
/// the selected and total counts, and the selected names.
pub open spec fn category_lines(v: AppView, cats: Seq<Category>) -> Seq<(Seq<char>, Seq<char>)>
    decreases cats.len(),
{
    if cats.len() == 0 {
        Seq::empty()
    } else {
        let p = category_lines(v, cats.drop_last());
        let c = cats.last();
        let on = count_on(v, c.id@);
        if on > 0 {
            p.push(category_line(v, c))
        } else {
            p
        }
    }
}

/// The line of category `c`: its title with the selected and total counts,
/// and the selected names.
pub open spec fn category_line(v: AppView, c: Category) -> (Seq<char>, Seq<char>) {
    (
        c.title@ + " ("@ + decimal(count_on(v, c.id@)) + "/"@ + decimal(count_all(v, c.id@)) + ")"@,
        join(selected_names(v, c.id@), ", "@),
    )
}

/// The custom packages, casks marked as such.
pub open spec fn extras_text(v: AppView) -> Seq<char> {
    join(
        v.sel.extra_brew + v.sel.extra_cask.map_values(|c: Seq<char>| c + " (cask)"@),
        ", "@,
    )
}

pub open spec fn bit_text(b: bool) -> Seq<char> {
    if b {
        "1"@
    } else {
        "0"@
    }
}

pub open spec fn toggles_text(t: Toggles) -> Seq<char> {
    "ricing="@ + bit_text(t.ricing) + " defaults="@ + bit_text(t.macos_defaults) + " power="@
        + bit_text(t.power) + " weekly="@ + bit_text(t.schedule) + " dock="@ + bit_text(t.dock)
}

/// The summary: the always-installed count, each category with a pick, the
/// custom packages (if any), the theme under the theme cursor, the toggles.
pub open spec fn summary_of(v: AppView) -> Seq<(Seq<char>, Seq<char>)> {
    seq![("Core (always)"@, decimal(always_count(v.catalog)) + " shell & CLI tools"@)]
        + category_lines(v, v.catalog.categories@.filter(|c: Category| !c.always)) + (if v.sel.extra_brew.len()
        > 0 || v.sel.extra_cask.len() > 0 {
        seq![("Custom Homebrew"@, extras_text(v))]
    } else {
        Seq::empty()
    }) + seq![
        ("Theme"@, v.themes[v.theme_idx as int].title@),
        ("Toggles"@, toggles_text(v.sel.toggles)),
    ]
}

fn bit_str(b: bool) -> (r: &'static str)
    ensures
        r@ == bit_text(b),
{
    if b {
        "1"
    } else {
        "0"
    }
}

fn toggles_string(t: Toggles) -> (r: String)
    ensures
        r@ == toggles_text(t),
{
    let mut s = "ricing=".to_owned();
    s.append(bit_str(t.ricing));
    s.append(" defaults=");
    s.append(bit_str(t.macos_defaults));
    s.append(" power=");
    s.append(bit_str(t.power));
    s.append(" weekly=");
    s.append(bit_str(t.schedule));
    s.append(" dock=");
    s.append(bit_str(t.dock));
    s
}

impl App {
    /// Names of the selected items of category `id`, in catalog order.
    fn selected_names_in(&self, id: &str) -> (r: Vec<String>)
        ensures
            string_views(r@) == selected_names(self@, id@),
    {
        proof {
            self.lemma_view();
        }
        let its = self.catalog.items_in(id);
        let ghost all = its@.map_values(|x: &Item| *x);
        let ghost pred = |i: Item| self@.sel.selected.contains(i.id@);
        let ghost f = |i: Item| i.name@;
        let mut out: Vec<String> = Vec::new();
        let n = its.len();
        let mut k: usize = 0;
        while k < n
            invariant
                n == its@.len(),
                k <= n,
                all == its@.map_values(|x: &Item| *x),
                pred == (|i: Item| self@.sel.selected.contains(i.id@)),
                f == (|i: Item| i.name@),
                self@.sel == self.sel@,
                string_views(out@) == all.take(k as int).filter(pred).map_values(f),
            decreases n - k,
        {
            proof {
                assert(all.take(k + 1) =~= all.take(k as int).push(all[k as int]));
                all.take(k as int).lemma_filter_push(all[k as int], pred);
            }
            let it = its[k];
            let ghost o0 = out@;
            if self.sel.is_selected(it.id.as_str()) {
                out.push(it.name.clone());
                assert(string_views(out@) =~= string_views(o0).push(it.name@));
                assert(all.take(k as int).filter(pred).push(all[k as int]).map_values(f)
                    =~= all.take(k as int).filter(pred).map_values(f).push(f(all[k as int])));
            }
            k = k + 1;
        }
        assert(all.take(n as int) =~= all);
        out
    }

    /// The custom packages, casks marked as such.
    fn extras_string(&self) -> (r: String)
        ensures
            r@ == extras_text(self@),
    {
        proof {
            self.lemma_view();
        }
        let mut parts: Vec<String> = Vec::new();
        let nb = self.sel.extra_brew.len();
        let mut i: usize = 0;
        while i < nb
            invariant
                nb == self.sel.extra_brew@.len(),
                i <= nb,
                string_views(parts@) == string_views(self.sel.extra_brew@).take(i as int),
            decreases nb - i,
        {
            let ghost p0 = parts@;
            parts.push(self.sel.extra_brew[i].clone());
            assert(string_views(parts@) =~= string_views(p0).push(self.sel.extra_brew@[i as int]@));
            assert(string_views(self.sel.extra_brew@).take(i + 1) =~= string_views(
                self.sel.extra_brew@,
            ).take(i as int).push(self.sel.extra_brew@[i as int]@));
            i = i + 1;
        }
        let ghost casks = string_views(self.sel.extra_cask@).map_values(
            |c: Seq<char>| c + " (cask)"@,
        );
        let nc = self.sel.extra_cask.len();
        let mut j: usize = 0;
        while j < nc
            invariant
                nb == self.sel.extra_brew@.len(),
                nc == self.sel.extra_cask@.len(),
                j <= nc,
                casks == string_views(self.sel.extra_cask@).map_values(
                    |c: Seq<char>| c + " (cask)"@,
                ),
                string_views(parts@) == string_views(self.sel.extra_brew@) + casks.take(j as int),
            decreases nc - j,
        {
            let ghost p0 = parts@;
            let mut s = self.sel.extra_cask[j].clone();
            s.append(" (cask)");
            assert(s@ == casks[j as int]);
            parts.push(s);
            assert(string_views(parts@) =~= string_views(p0).push(casks[j as int]));
            assert(casks.take(j + 1) =~= casks.take(j as int).push(casks[j as int]));
            assert(string_views(parts@) =~= string_views(self.sel.extra_brew@) + casks.take(j + 1));
            j = j + 1;
        }
        assert(string_views(self.sel.extra_brew@).take(nb as int) =~= string_views(
            self.sel.extra_brew@,
        ));
        assert(casks.take(nc as int) =~= casks);
        join_strings(&parts, ", ")
    }

    /// The Save tab's summary lines.
    pub fn summary(&self) -> (r: Vec<SummaryLine>)
        requires
            self.wf(),
        ensures
            r@.map_values(|l: SummaryLine| line_view(l)) == summary_of(self@),
    {
        proof {
            self.lemma_view();
        }
        let ghost v = self@;
        let mut out: Vec<SummaryLine> = Vec::new();
        let ids = self.catalog.always_ids();
        let core = ids.len();
        assert(ids@.map_values(|x: &str| x@).len() == ids@.len());
        let mut t = String::new();
        push_decimal(&mut t, core as u64);
        t.append(" shell & CLI tools");
        out.push(SummaryLine { label: "Core (always)".to_owned(), text: t });
        let ghost head = seq![("Core (always)"@, decimal(always_count(v.catalog)) + " shell & CLI tools"@)];
        assert(out@.map_values(|l: SummaryLine| line_view(l)) =~= head);

        let cats = self.catalog.selectable_categories();
        let ghost sc = cats@.map_values(|x: &Category| *x);
        assert(sc.take(0) =~= Seq::<Category>::empty());
        assert(head + Seq::<(Seq<char>, Seq<char>)>::empty() =~= head);
        let n = cats.len();
        let mut j: usize = 0;
        while j < n
            invariant
                n == cats@.len(),
                j <= n,
                v == self@,
                sc == cats@.map_values(|x: &Category| *x),
                sc == v.catalog.categories@.filter(|c: Category| !c.always),
                out@.map_values(|l: SummaryLine| line_view(l)) == head + category_lines(
                    v,
                    sc.take(j as int),
                ),
            decreases n - j,
        {
            proof {
                self.lemma_view();
            }
            let c = cats[j];
            let cat = Some(c.id.clone());
            let (on, total) = self.selected_in(&cat);
            proof {
                assert((|it: Item|
                    in_scope(self.catalog, crate::app::opt_text(cat), it) && self.sel@.selected.contains(
                        it.id@,
                    )) =~= (|it: Item|
                    in_scope(v.catalog, Some(c.id@), it) && v.sel.selected.contains(it.id@)));
                assert((|it: Item| in_scope(self.catalog, crate::app::opt_text(cat), it)) =~= (|it: Item|
                    in_scope(v.catalog, Some(c.id@), it)));
            }
            let ghost o0 = out@;
            proof {
                assert(sc.take(j + 1).drop_last() =~= sc.take(j as int));
                assert(sc.take(j + 1).last() == *c);
                assert(sc[j as int] == *c);
            }
            assert(on == count_on(v, c.id@));
            assert(total == count_all(v, c.id@));
            if on > 0 {
                let names = self.selected_names_in(c.id.as_str());
                let mut label = c.title.clone();
                label.append(" (");
                push_decimal(&mut label, on as u64);
                label.append("/");
                push_decimal(&mut label, total as u64);
                label.append(")");
                let text = join_strings(&names, ", ");
                let line = SummaryLine { label, text };
                assert(line_view(line) == category_line(v, *c));
                out.push(line);
                assert(out@.map_values(|l: SummaryLine| line_view(l)) =~= o0.map_values(
                    |l: SummaryLine| line_view(l),
                ).push(category_line(v, *c)));
            }
            assert(out@.map_values(|l: SummaryLine| line_view(l)) =~= head + category_lines(
                v,
                sc.take(j + 1),
            ));
            j = j + 1;
        }
        assert(sc.take(n as int) =~= sc);
        let ghost mid = head + category_lines(v, sc);
        let ghost o1 = out@;
        if self.sel.extra_brew.len() > 0 || self.sel.extra_cask.len() > 0 {
            let text = self.extras_string();
            out.push(SummaryLine { label: "Custom Homebrew".to_owned(), text });
            assert(out@.map_values(|l: SummaryLine| line_view(l)) =~= mid + seq![
                ("Custom Homebrew"@, extras_text(v)),
            ]);
        } else {
            assert(out@.map_values(|l: SummaryLine| line_view(l)) =~= mid + Seq::<
                (Seq<char>, Seq<char>),
            >::empty());
        }
        let ghost o2 = out@;
        out.push(
            SummaryLine {
                label: "Theme".to_owned(),
                text: self.themes[self.theme_idx].title.clone(),
            },
        );
        out.push(SummaryLine { label: "Toggles".to_owned(), text: toggles_string(self.sel.toggles) });
        assert(out@.map_values(|l: SummaryLine| line_view(l)) =~= o2.map_values(
            |l: SummaryLine| line_view(l),
        ) + seq![
            ("Theme"@, v.themes[v.theme_idx as int].title@),
            ("Toggles"@, toggles_text(v.sel.toggles)),
        ]);
        out
    }
}

} // verus!
