//! The canonical catalog: ordered categories + installable items, with the
//! cross-reference checks every loaded `catalog.toml` must pass.
use crate::text::{join, same_text};
use vstd::prelude::*;

verus! {

/// How an item is installed. Mirrors the `kind` column bash understands.
#[derive(Debug, Clone, Copy, PartialEq, Eq, Structural)]
pub enum Kind {
    /// Homebrew formula.
    Brew,
    /// Homebrew cask.
    Cask,
    /// Vendor install script piped to bash.
    Curl,
    /// Global JS package (bun/npm).
    Npm,
    /// Python CLI via `uv tool`.
    Uv,
    /// Mac App Store app (`<id>:<name>`).
    Mas,
    /// Special-cased rustup toolchain.
    Rustup,
}

/// The short human tag of a kind.
pub open spec fn kind_label(k: Kind) -> Seq<char> {
    match k {
        Kind::Brew => "brew"@,
        Kind::Cask => "cask"@,
        Kind::Curl => "script"@,
        Kind::Npm => "npm"@,
        Kind::Uv => "uv"@,
        Kind::Mas => "App Store"@,
        Kind::Rustup => "rustup"@,
    }
}

impl Kind {
    /// Short human tag shown in the picker, e.g. `brew`, `cask`, `App Store`.
    pub fn label(self) -> (r: &'static str)
        ensures
            r@ == kind_label(self),
    {
        match self {
            Kind::Brew => "brew",
            Kind::Cask => "cask",
            Kind::Curl => "script",
            Kind::Npm => "npm",
            Kind::Uv => "uv",
            Kind::Mas => "App Store",
            Kind::Rustup => "rustup",
        }
    }
}

/// A cost/friction warning surfaced as a badge in the picker.
#[derive(Debug, Clone, Copy, PartialEq, Eq, Structural)]
pub enum Flag {
    /// Costs money / needs a paid plan.
    Paid,
    /// Needs a sign-in / account before it is useful.
    Account,
    /// A large download (multiple GB).
    Large,
    /// Installed from the Mac App Store (needs App Store sign-in).
    Appstore,
}

pub open spec fn flag_badge(f: Flag) -> Seq<char> {
    match f {
        Flag::Paid => "paid"@,
        Flag::Account => "account"@,
        Flag::Large => "large"@,
        Flag::Appstore => "App Store"@,
    }
}

pub open spec fn flag_note(f: Flag) -> Seq<char> {
    match f {
        Flag::Paid => "costs money or needs a paid plan"@,
        Flag::Account => "needs an account / sign-in"@,
        Flag::Large => "large download (can be several GB)"@,
        Flag::Appstore => "installs from the Mac App Store (sign-in required)"@,
    }
}

impl Flag {
    /// The compact badge text.
    pub fn badge(self) -> (r: &'static str)
        ensures
            r@ == flag_badge(self),
    {
        match self {
            Flag::Paid => "paid",
            Flag::Account => "account",
            Flag::Large => "large",
            Flag::Appstore => "App Store",
        }
    }

    /// A one-line explanation for the confirm screen.
    pub fn note(self) -> (r: &'static str)
        ensures
            r@ == flag_note(self),
    {
        match self {
            Flag::Paid => "costs money or needs a paid plan",
            Flag::Account => "needs an account / sign-in",
            Flag::Large => "large download (can be several GB)",
            Flag::Appstore => "installs from the Mac App Store (sign-in required)",
        }
    }
}

/// One installable thing.
#[derive(Debug)]
pub struct Item {
    pub id: String,
    pub category: String,
    pub kind: Kind,
    pub default: bool,
    pub payload: String,
    pub name: String,
    pub description: String,
    pub flags: Vec<Flag>,
}

/// The command probed to see whether an item is already present: the id,
/// but `cursor-agent` for `cursor`.
pub open spec fn probe_of(id: Seq<char>) -> Seq<char> {
    if id == "cursor"@ {
        "cursor-agent"@
    } else {
        id
    }
}

impl Item {
    /// The command name we probe to see if it is already present.
    pub fn probe_command(&self) -> (r: &str)
        ensures
            r@ == probe_of(self.id@),
    {
        if same_text(self.id.as_str(), "cursor") {
            "cursor-agent"
        } else {
            self.id.as_str()
        }
    }

    /// What the item's warning badges say, joined with "; " (empty when it
    /// has none).
    pub fn flag_notes(&self) -> (r: String)
        ensures
            r@ == join(self.flags@.map_values(|f: Flag| flag_note(f)), "; "@),
    {
        let ghost notes = self.flags@.map_values(|f: Flag| flag_note(f));
        let mut out = String::new();
        let n = self.flags.len();
        let mut i: usize = 0;
        while i < n
            invariant
                n == self.flags@.len(),
                i <= n,
                notes == self.flags@.map_values(|f: Flag| flag_note(f)),
                out@ == join(notes.take(i as int), "; "@),
            decreases n - i,
        {
            assert(notes.take(i + 1).drop_last() =~= notes.take(i as int));
            assert(notes.take(i + 1).last() == flag_note(self.flags@[i as int]));
            if i > 0 {
                out.append("; ");
            } else {
                assert(out@ =~= Seq::<char>::empty());
            }
            out.append(self.flags[i].note());
            assert(out@ =~= join(notes.take(i + 1), "; "@));
            i = i + 1;
        }
        assert(notes.take(n as int) =~= notes);
        out
    }
}

/// A display grouping. An `always` category is installed unconditionally and
/// never shown as a toggle in the picker.
#[derive(Debug)]
pub struct Category {
    pub id: String,
    pub title: String,
    pub always: bool,
}

/// The whole catalog: ordered categories + items.
#[derive(Debug)]
pub struct Catalog {
    pub categories: Vec<Category>,
    pub items: Vec<Item>,
}

/// Why a catalog was refused.
#[derive(Debug, PartialEq, Eq)]
pub enum CatalogError {
    /// An item points at a category id no category has.
    UnknownCategory { item: String, category: String },
    /// Two items share an id.
    DuplicateId(String),
}

/// Whether some category has id `id`.
pub open spec fn has_category(cats: Seq<Category>, id: Seq<char>) -> bool {
    exists|c: int| 0 <= c < cats.len() && cats[c].id@ == id
}

/// Item `k` repeats the id of an earlier item.
pub open spec fn repeats_earlier(items: Seq<Item>, k: int) -> bool {
    exists|j: int| 0 <= j < k && items[j].id@ == items[k].id@
}

/// Item `k` is the first whose category is unknown.
pub open spec fn first_orphan(cats: Seq<Category>, items: Seq<Item>, k: int) -> bool {
    &&& 0 <= k < items.len()
    &&& !has_category(cats, items[k].category@)
    &&& forall|j: int| 0 <= j < k ==> has_category(cats, #[trigger] items[j].category@)
}

/// Every item points at a known category.
pub open spec fn all_known(cats: Seq<Category>, items: Seq<Item>) -> bool {
    forall|j: int| 0 <= j < items.len() ==> has_category(cats, #[trigger] items[j].category@)
}

/// Item `k` is the first that repeats an earlier id.
pub open spec fn first_repeat(items: Seq<Item>, k: int) -> bool {
    &&& 0 <= k < items.len()
    &&& repeats_earlier(items, k)
    &&& forall|j: int| 0 <= j < k ==> !repeats_earlier(items, j)
}

/// No two items share an id.
pub open spec fn ids_distinct(items: Seq<Item>) -> bool {
    forall|i: int, j: int| 0 <= i < j < items.len() ==> items[i].id@ != items[j].id@
}

/// The first position whose element satisfies the item predicate.
pub open spec fn is_first_category(cats: Seq<Category>, id: Seq<char>, c: int) -> bool {
    &&& 0 <= c < cats.len()
    &&& cats[c].id@ == id
    &&& forall|j: int| 0 <= j < c ==> cats[j].id@ != id
}

pub open spec fn is_first_item(items: Seq<Item>, id: Seq<char>, k: int) -> bool {
    &&& 0 <= k < items.len()
    &&& items[k].id@ == id
    &&& forall|j: int| 0 <= j < k ==> items[j].id@ != id
}

/// The title shown for category id `id`: that of the first category with
/// that id, else the id itself.
pub open spec fn title_for(cats: Seq<Category>, id: Seq<char>) -> Seq<char> {
    if has_category(cats, id) {
        cats[choose|c: int| is_first_category(cats, id, c)].title@
    } else {
        id
    }
}

/// Whether a category id belongs to an `always` category.
pub open spec fn is_always_category(cats: Seq<Category>, id: Seq<char>) -> bool {
    exists|c: int| 0 <= c < cats.len() && cats[c].always && cats[c].id@ == id
}

pub proof fn lemma_first_category_unique(cats: Seq<Category>, id: Seq<char>, a: int, b: int)
    requires
        is_first_category(cats, id, a),
        is_first_category(cats, id, b),
    ensures
        a == b,
{
}


impl Catalog {
    /// Index of the first category with id `id`.
    fn category_index(&self, id: &str) -> (r: Option<usize>)
        ensures
            match r {
                Some(c) => is_first_category(self.categories@, id@, c as int),
                None => !has_category(self.categories@, id@),
            },
    {
        let n = self.categories.len();
        let mut c: usize = 0;
        while c < n
            invariant
                n == self.categories@.len(),
                c <= n,
                forall|j: int| 0 <= j < c ==> self.categories@[j].id@ != id@,
            decreases n - c,
        {
            if same_text(self.categories[c].id.as_str(), id) {
                return Some(c);
            }
            c = c + 1;
        }
        None
    }

    /// Check the cross-references: every item must point at a known category
    /// (reported for the first item that does not), then ids must be unique
    /// (reported for the first item that repeats one).
    pub fn validate(&self) -> (r: Result<(), CatalogError>)
        ensures
            r is Ok <==> all_known(self.categories@, self.items@) && ids_distinct(self.items@),
            r matches Err(CatalogError::UnknownCategory { item, category }) ==> exists|k: int|
                first_orphan(self.categories@, self.items@, k) && item@ == self.items@[k].id@
                    && category@ == self.items@[k].category@,
            (exists|k: int| first_orphan(self.categories@, self.items@, k)) ==> r matches Err(
                CatalogError::UnknownCategory { .. },
            ),
            r matches Err(CatalogError::DuplicateId(id)) ==> all_known(
                self.categories@,
                self.items@,
            ) && exists|k: int| first_repeat(self.items@, k) && id@ == self.items@[k].id@,
    {
        let n = self.items.len();
        let mut k: usize = 0;
        while k < n
            invariant
                n == self.items@.len(),
                k <= n,
                forall|j: int|
                    0 <= j < k ==> has_category(self.categories@, #[trigger] self.items@[j].category@),
            decreases n - k,
        {
            match self.category_index(self.items[k].category.as_str()) {
                Some(_) => {},
                None => {
                    let item = self.items[k].id.clone();
                    let category = self.items[k].category.clone();
                    assert(first_orphan(self.categories@, self.items@, k as int));
                    proof {
                        assert(!all_known(self.categories@, self.items@));
                    }
                    return Err(CatalogError::UnknownCategory { item, category });
                },
            }
            k = k + 1;
        }
        assert(all_known(self.categories@, self.items@));
        assert forall|x: int| #![trigger first_orphan(self.categories@, self.items@, x)]
            !first_orphan(self.categories@, self.items@, x) by {}
        let mut k: usize = 0;
        while k < n
            invariant
                n == self.items@.len(),
                k <= n,
                all_known(self.categories@, self.items@),
                forall|i: int, j: int|
                    0 <= i < j < k ==> self.items@[i].id@ != self.items@[j].id@,
            decreases n - k,
        {
            let mut j: usize = 0;
            while j < k
                invariant
                    n == self.items@.len(),
                    j <= k < n,
                    all_known(self.categories@, self.items@),
                    forall|i: int, j2: int|
                        0 <= i < j2 < k ==> self.items@[i].id@ != self.items@[j2].id@,
                    forall|i: int| 0 <= i < j ==> self.items@[i].id@ != self.items@[k as int].id@,
                decreases k - j,
            {
                if same_text(self.items[j].id.as_str(), self.items[k].id.as_str()) {
                    let id = self.items[k].id.clone();
                    proof {
                        assert(repeats_earlier(self.items@, k as int));
                        assert forall|x: int| 0 <= x < k implies !repeats_earlier(
                            self.items@,
                            x,
                        ) by {}
                        assert(first_repeat(self.items@, k as int));
                        assert(!ids_distinct(self.items@));
                    }
                    return Err(CatalogError::DuplicateId(id));
                }
                j = j + 1;
            }
            k = k + 1;
        }
        Ok(())
    }

    /// A catalog from its parts, refused when [`Catalog::validate`] refuses it.
    pub fn new(categories: Vec<Category>, items: Vec<Item>) -> (r: Result<Catalog, CatalogError>)
        ensures
            r is Ok <==> all_known(categories@, items@) && ids_distinct(items@),
            r matches Ok(c) ==> c.categories@ == categories@ && c.items@ == items@,
            r matches Err(CatalogError::UnknownCategory { item, category }) ==> exists|k: int|
                first_orphan(categories@, items@, k) && item@ == items@[k].id@ && category@
                    == items@[k].category@,
            (exists|k: int| first_orphan(categories@, items@, k)) ==> r matches Err(
                CatalogError::UnknownCategory { .. },
            ),
            r matches Err(CatalogError::DuplicateId(id)) ==> all_known(categories@, items@)
                && exists|k: int| first_repeat(items@, k) && id@ == items@[k].id@,
    {
        let cat = Catalog { categories, items };
        match cat.validate() {
            Ok(()) => Ok(cat),
            Err(e) => Err(e),
        }
    }

    /// Human title for a category id (falls back to the id itself).
    pub fn category_title(&self, id: &str) -> (r: String)
        ensures
            r@ == title_for(self.categories@, id@),
    {
        match self.category_index(id) {
            Some(c) => {
                proof {
                    let w = choose|x: int| is_first_category(self.categories@, id@, x);
                    lemma_first_category_unique(self.categories@, id@, w, c as int);
                }
                self.categories[c].title.clone()
            },
            None => id.to_owned(),
        }
    }

    /// Items in a category, in catalog order.
    pub fn items_in(&self, category: &str) -> (r: Vec<&Item>)
        ensures
            r@.map_values(|x: &Item| *x) == self.items@.filter(
                |i: Item| i.category@ == category@,
            ),
    {
        let ghost pred = |i: Item| i.category@ == category@;
        let mut out: Vec<&Item> = Vec::new();
        let n = self.items.len();
        let mut k: usize = 0;
        while k < n
            invariant
                n == self.items@.len(),
                k <= n,
                pred == (|i: Item| i.category@ == category@),
                out@.map_values(|x: &Item| *x) == self.items@.take(k as int).filter(pred),
            decreases n - k,
        {
            proof {
                assert(self.items@.take(k + 1) =~= self.items@.take(k as int).push(
                    self.items@[k as int],
                ));
                self.items@.take(k as int).lemma_filter_push(self.items@[k as int], pred);
            }
            if same_text(self.items[k].category.as_str(), category) {
                out.push(&self.items[k]);
            }
            assert(out@.map_values(|x: &Item| *x) =~= self.items@.take(k + 1).filter(pred));
            k = k + 1;
        }
        assert(self.items@.take(n as int) =~= self.items@);
        out
    }

    /// Look an item up by id: the first item with that id.
    pub fn get(&self, id: &str) -> (r: Option<&Item>)
        ensures
            match r {
                Some(it) => exists|k: int| is_first_item(self.items@, id@, k) && *it == self.items@[k],
                None => forall|k: int| 0 <= k < self.items@.len() ==> self.items@[k].id@ != id@,
            },
    {
        let n = self.items.len();
        let mut k: usize = 0;
        while k < n
            invariant
                n == self.items@.len(),
                k <= n,
                forall|j: int| 0 <= j < k ==> self.items@[j].id@ != id@,
            decreases n - k,
        {
            if same_text(self.items[k].id.as_str(), id) {
                assert(is_first_item(self.items@, id@, k as int));
                return Some(&self.items[k]);
            }
            k = k + 1;
        }
        None
    }

    /// Whether `id` names an `always` category.
    fn is_always(&self, id: &str) -> (r: bool)
        ensures
            r == is_always_category(self.categories@, id@),
    {
        let n = self.categories.len();
        let mut c: usize = 0;
        while c < n
            invariant
                n == self.categories@.len(),
                c <= n,
                forall|j: int|
                    0 <= j < c ==> !(self.categories@[j].always && self.categories@[j].id@ == id@),
            decreases n - c,
        {
            if self.categories[c].always && same_text(self.categories[c].id.as_str(), id) {
                return true;
            }
            c = c + 1;
        }
        false
    }

    /// The ids of the items in `always` categories (installed unconditionally,
    /// never shown in the picker), in catalog order.
    pub fn always_ids(&self) -> (r: Vec<&str>)
        ensures
            r@.map_values(|x: &str| x@) == self.items@.filter(
                |i: Item| is_always_category(self.categories@, i.category@),
            ).map_values(|i: Item| i.id@),
    {
        let ghost pred = |i: Item| is_always_category(self.categories@, i.category@);
        let mut out: Vec<&str> = Vec::new();
        let n = self.items.len();
        let mut k: usize = 0;
        while k < n
            invariant
                n == self.items@.len(),
                k <= n,
                pred == (|i: Item| is_always_category(self.categories@, i.category@)),
                out@.map_values(|x: &str| x@) == self.items@.take(k as int).filter(
                    pred,
                ).map_values(|i: Item| i.id@),
            decreases n - k,
        {
            proof {
                assert(self.items@.take(k + 1) =~= self.items@.take(k as int).push(
                    self.items@[k as int],
                ));
                self.items@.take(k as int).lemma_filter_push(self.items@[k as int], pred);
            }
            let ghost f0 = self.items@.take(k as int).filter(pred);
            let ghost o0 = out@;
            if self.is_always(self.items[k].category.as_str()) {
                out.push(self.items[k].id.as_str());
                assert(out@.map_values(|x: &str| x@) =~= o0.map_values(|x: &str| x@).push(
                    self.items@[k as int].id@,
                ));
                assert(f0.push(self.items@[k as int]).map_values(|i: Item| i.id@)
                    =~= f0.map_values(|i: Item| i.id@).push(self.items@[k as int].id@));
            }
            k = k + 1;
        }
        assert(self.items@.take(n as int) =~= self.items@);
        out
    }

    /// Categories a user actually picks in (everything but `always` ones), in
    /// catalog order.
    pub fn selectable_categories(&self) -> (r: Vec<&Category>)
        ensures
            r@.map_values(|x: &Category| *x) == self.categories@.filter(|c: Category| !c.always),
    {
        let ghost pred = |c: Category| !c.always;
        let mut out: Vec<&Category> = Vec::new();
        let n = self.categories.len();
        let mut k: usize = 0;
        while k < n
            invariant
                n == self.categories@.len(),
                k <= n,
                pred == (|c: Category| !c.always),
                out@.map_values(|x: &Category| *x) == self.categories@.take(k as int).filter(pred),
            decreases n - k,
        {
            proof {
                assert(self.categories@.take(k + 1) =~= self.categories@.take(k as int).push(
                    self.categories@[k as int],
                ));
                self.categories@.take(k as int).lemma_filter_push(self.categories@[k as int], pred);
            }
            if !self.categories[k].always {
                out.push(&self.categories[k]);
            }
            assert(out@.map_values(|x: &Category| *x) =~= self.categories@.take(k + 1).filter(
                pred,
            ));
            k = k + 1;
        }
        assert(self.categories@.take(n as int) =~= self.categories@);
        out
    }
}

} // verus!
