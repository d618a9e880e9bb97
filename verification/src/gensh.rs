//! The generated bash sources: `scripts/catalog.sh` (from the catalog) and
//! `scripts/presets.sh` (from the flavours).
//!
//! The TOML files are the source of truth; the bash picker/installer still
//! read the generated `.sh`. Output is byte-for-byte deterministic, so a
//! check can tell whether a committed copy is up to date.
use crate::catalog::{Catalog, Category, Item, Kind};
use crate::flavour::Flavour;
use crate::selection::bit;
use crate::text::{join, join_strings, string_views};
use vstd::prelude::*;

verus! {

pub const PRESETS_HEADER: &'static str = "#!/usr/bin/env bash
# ============================================================
#  presets.sh — GENERATED from flavours/*.toml. Do not edit by hand.
#      Regenerate with:  newmac-ui catalog gen-sh
#  A preset pre-selects catalog ids + theme/glass/toggles; the picker still
#  opens so you can tweak. Add your own by dropping a flavours/<id>.toml
#  (see CONTRIBUTING.md). Keep this file bash-3.2 compatible.
# ============================================================

";

pub const HEADER: &'static str = "#!/usr/bin/env bash
# ============================================================
#  catalog.sh — GENERATED from catalog.toml. Do not edit by hand.
#      Regenerate with:  newmac-ui catalog gen-sh
#  Format (pipe-separated): id|category|kind|default|payload|name|description
#  Keep this file bash-3.2 compatible. No apostrophes in the catalog string.
# ============================================================
";

pub const FOOTER: &'static str = "
# --- Parse the catalog into parallel arrays --------------------
CAT_ID=(); CAT_CATEGORY=(); CAT_KIND=(); CAT_DEFAULT=(); CAT_PAYLOAD=(); CAT_NAME=(); CAT_DESC=()
_newmac_parse_catalog() {
  local id cat kind def payload name desc n=0
  while IFS='|' read -r id cat kind def payload name desc; do
    [[ -z \"$id\" ]] && continue
    case \"$id\" in \\#*) continue ;; esac
    CAT_ID[n]=\"$id\"; CAT_CATEGORY[n]=\"$cat\"; CAT_KIND[n]=\"$kind\"
    CAT_DEFAULT[n]=\"$def\"; CAT_PAYLOAD[n]=\"$payload\"; CAT_NAME[n]=\"$name\"; CAT_DESC[n]=\"$desc\"
    n=$((n+1))
  done <<EOF
$NEWMAC_CATALOG
EOF
}
_newmac_parse_catalog
";

// ---- presets.sh ------------------------------------------------------------

/// Which value a `newmac_preset_*` function reports.
#[derive(Clone, Copy, PartialEq, Eq, Structural)]
pub enum PresetField {
    Title,
    Desc,
    Ids,
    Toggles,
    Theme,
    Glass,
}

/// `ricing macos power schedule dock` as `0`/`1` words.
pub open spec fn toggles_word(f: Flavour) -> Seq<char> {
    bit(f.ricing) + " "@ + bit(f.macos_defaults) + " "@ + bit(f.power) + " "@ + bit(f.schedule)
        + " "@ + bit(f.dock)
}

/// The character of one `0`/`1` bit.
pub open spec fn bit_char(b: bool) -> char {
    if b {
        '1'
    } else {
        '0'
    }
}

/// The toggles word of a flavour is five one-character bits with a space
/// between each two, read by position in the order bash reads them:
/// ricing, macOS defaults, power, schedule, dock.
pub proof fn lemma_toggles_word_positions(f: Flavour)
    ensures
        toggles_word(f).len() == 9,
        forall|k: int|
            0 <= k < 5 ==> #[trigger] toggles_word(f)[2 * k] == bit_char(
                seq![f.ricing, f.macos_defaults, f.power, f.schedule, f.dock][k],
            ),
        forall|k: int| 0 <= k < 4 ==> #[trigger] toggles_word(f)[2 * k + 1] == ' ',
{
    reveal_strlit("1");
    reveal_strlit("0");
    reveal_strlit(" ");
    assert(bit(f.ricing) =~= seq![bit_char(f.ricing)]);
    assert(bit(f.macos_defaults) =~= seq![bit_char(f.macos_defaults)]);
    assert(bit(f.power) =~= seq![bit_char(f.power)]);
    assert(bit(f.schedule) =~= seq![bit_char(f.schedule)]);
    assert(bit(f.dock) =~= seq![bit_char(f.dock)]);
    assert(toggles_word(f) =~= seq![
        bit_char(f.ricing),
        ' ',
        bit_char(f.macos_defaults),
        ' ',
        bit_char(f.power),
        ' ',
        bit_char(f.schedule),
        ' ',
        bit_char(f.dock),
    ]);
}

pub open spec fn field_value(f: Flavour, field: PresetField) -> Seq<char> {
    match field {
        PresetField::Title => f.title@,
        PresetField::Desc => f.desc@,
        PresetField::Ids => join(string_views(f.ids@), " "@),
        PresetField::Toggles => toggles_word(f),
        PresetField::Theme => f.theme@,
        PresetField::Glass => bit(f.glass),
    }
}

/// One `case` arm: `    <id>) echo "<value>" ;;`.
pub open spec fn arm(id: Seq<char>, value: Seq<char>) -> Seq<char> {
    "    "@ + id + ") echo \""@ + value + "\" ;;\n"@
}

/// The arms of every flavour, in order.
pub open spec fn arms(fs: Seq<Flavour>, field: PresetField) -> Seq<char>
    decreases fs.len(),
{
    if fs.len() == 0 {
        Seq::empty()
    } else {
        arms(fs.drop_last(), field) + arm(fs.last().id@, field_value(fs.last(), field))
    }
}

/// `default`, then each flavour id, space separated.
pub open spec fn preset_names(fs: Seq<Flavour>) -> Seq<char>
    decreases fs.len(),
{
    if fs.len() == 0 {
        "default"@
    } else {
        preset_names(fs.drop_last()) + " "@ + fs.last().id@
    }
}

/// The full `scripts/presets.sh` for these flavours.
pub open spec fn presets_text(fs: Seq<Flavour>) -> Seq<char> {
    PRESETS_HEADER@ + "NEWMAC_PRESETS=\""@ + preset_names(fs) + "\"\n\n"@
        + "newmac_preset_title() {\n  case \"$1\" in\n"@ + "    default) echo \"Balanced\" ;;\n"@
        + arms(fs, PresetField::Title) + "    *) echo \"$1\" ;;\n  esac\n}\n\n"@
        + "newmac_preset_desc() {\n  case \"$1\" in\n"@
        + "    default) echo \"The catalog defaults — every category at its sensible default\" ;;\n"@
        + arms(fs, PresetField::Desc) + "    *) echo \"\" ;;\n  esac\n}\n\n"@
        + "newmac_preset_ids() {\n  case \"$1\" in\n"@ + arms(fs, PresetField::Ids)
        + "    *) echo \"\" ;;\n  esac\n}\n\n"@ + "newmac_preset_toggles() {\n  case \"$1\" in\n"@
        + arms(fs, PresetField::Toggles) + "    *) echo \"1 1 1 0 1\" ;;\n  esac\n}\n\n"@
        + "newmac_preset_theme() {\n  case \"$1\" in\n"@ + arms(fs, PresetField::Theme)
        + "    *) echo \"\" ;;\n  esac\n}\n\n"@ + "newmac_preset_glass() {\n  case \"$1\" in\n"@
        + arms(fs, PresetField::Glass) + "    *) echo \"0\" ;;\n  esac\n}\n"@
}

fn bit_text(b: bool) -> (r: &'static str)
    ensures
        r@ == bit(b),
{
    if b {
        "1"
    } else {
        "0"
    }
}

fn value_of(f: &Flavour, field: PresetField) -> (r: String)
    ensures
        r@ == field_value(*f, field),
{
    match field {
        PresetField::Title => f.title.clone(),
        PresetField::Desc => f.desc.clone(),
        PresetField::Ids => join_strings(&f.ids, " "),
        PresetField::Toggles => {
            let mut s = String::new();
            s.append(bit_text(f.ricing));
            s.append(" ");
            s.append(bit_text(f.macos_defaults));
            s.append(" ");
            s.append(bit_text(f.power));
            s.append(" ");
            s.append(bit_text(f.schedule));
            s.append(" ");
            s.append(bit_text(f.dock));
            s
        },
        PresetField::Theme => f.theme.clone(),
        PresetField::Glass => bit_text(f.glass).to_owned(),
    }
}

fn push_arms(out: &mut String, fs: &[Flavour], field: PresetField)
    ensures
        final(out)@ == old(out)@ + arms(fs@, field),
{
    let ghost o0 = out@;
    let n = fs.len();
    let mut i: usize = 0;
    assert(arms(fs@.take(0), field) =~= Seq::<char>::empty()) by {
        assert(fs@.take(0) =~= Seq::<Flavour>::empty());
    }
    while i < n
        invariant
            n == fs@.len(),
            i <= n,
            out@ == o0 + arms(fs@.take(i as int), field),
        decreases n - i,
    {
        let ghost t = fs@.take(i + 1);
        assert(t.drop_last() =~= fs@.take(i as int));
        assert(t.last() == fs@[i as int]);
        let v = value_of(&fs[i], field);
        out.append("    ");
        out.append(fs[i].id.as_str());
        out.append(") echo \"");
        out.append(v.as_str());
        out.append("\" ;;\n");
        assert(out@ =~= o0 + arms(t, field));
        i = i + 1;
    }
    assert(fs@.take(n as int) =~= fs@);
}

/// Render `scripts/presets.sh` from the flavours (plus the special `default`
/// = catalog on/off defaults): the `newmac_preset_{title,desc,ids,toggles,
/// theme,glass}` functions bash uses, one `case` arm per flavour in order.
pub fn render_presets(flavours: &[Flavour]) -> (r: String)
    ensures
        r@ == presets_text(flavours@),
{
    let mut out = String::new();
    out.append(PRESETS_HEADER);
    out.append("NEWMAC_PRESETS=\"");
    let ghost o1 = out@;
    out.append("default");
    let n = flavours.len();
    let mut i: usize = 0;
    assert(flavours@.take(0) =~= Seq::<Flavour>::empty());
    while i < n
        invariant
            n == flavours@.len(),
            i <= n,
            out@ == o1 + preset_names(flavours@.take(i as int)),
        decreases n - i,
    {
        let ghost t = flavours@.take(i + 1);
        assert(t.drop_last() =~= flavours@.take(i as int));
        assert(t.last() == flavours@[i as int]);
        out.append(" ");
        out.append(flavours[i].id.as_str());
        assert(out@ =~= o1 + preset_names(t));
        i = i + 1;
    }
    assert(flavours@.take(n as int) =~= flavours@);
    out.append("\"\n\n");
    out.append("newmac_preset_title() {\n  case \"$1\" in\n");
    out.append("    default) echo \"Balanced\" ;;\n");
    push_arms(&mut out, flavours, PresetField::Title);
    out.append("    *) echo \"$1\" ;;\n  esac\n}\n\n");
    out.append("newmac_preset_desc() {\n  case \"$1\" in\n");
    out.append(
        "    default) echo \"The catalog defaults — every category at its sensible default\" ;;\n",
    );
    push_arms(&mut out, flavours, PresetField::Desc);
    out.append("    *) echo \"\" ;;\n  esac\n}\n\n");
    out.append("newmac_preset_ids() {\n  case \"$1\" in\n");
    push_arms(&mut out, flavours, PresetField::Ids);
    out.append("    *) echo \"\" ;;\n  esac\n}\n\n");
    out.append("newmac_preset_toggles() {\n  case \"$1\" in\n");
    push_arms(&mut out, flavours, PresetField::Toggles);
    out.append("    *) echo \"1 1 1 0 1\" ;;\n  esac\n}\n\n");
    out.append("newmac_preset_theme() {\n  case \"$1\" in\n");
    push_arms(&mut out, flavours, PresetField::Theme);
    out.append("    *) echo \"\" ;;\n  esac\n}\n\n");
    out.append("newmac_preset_glass() {\n  case \"$1\" in\n");
    push_arms(&mut out, flavours, PresetField::Glass);
    out.append("    *) echo \"0\" ;;\n  esac\n}\n");
    assert(out@ =~= presets_text(flavours@));
    out
}

// ---- catalog.sh ------------------------------------------------------------

/// The `kind` column bash understands.
pub open spec fn kind_word(k: Kind) -> Seq<char> {
    match k {
        Kind::Brew => "brew"@,
        Kind::Cask => "cask"@,
        Kind::Curl => "curl"@,
        Kind::Npm => "npm"@,
        Kind::Uv => "uv"@,
        Kind::Mas => "mas"@,
        Kind::Rustup => "rustup"@,
    }
}

/// The kind column of a catalog row is the kind's own name in lower case,
/// the word bash's installer dispatches on.
pub proof fn lemma_kind_words(k: Kind)
    ensures
        k == Kind::Brew ==> kind_word(k) == "brew"@,
        k == Kind::Cask ==> kind_word(k) == "cask"@,
        k == Kind::Curl ==> kind_word(k) == "curl"@,
        k == Kind::Npm ==> kind_word(k) == "npm"@,
        k == Kind::Uv ==> kind_word(k) == "uv"@,
        k == Kind::Mas ==> kind_word(k) == "mas"@,
        k == Kind::Rustup ==> kind_word(k) == "rustup"@,
{
}

fn kind_str(k: Kind) -> (r: &'static str)
    ensures
        r@ == kind_word(k),
{
    match k {
        Kind::Brew => "brew",
        Kind::Cask => "cask",
        Kind::Curl => "curl",
        Kind::Npm => "npm",
        Kind::Uv => "uv",
        Kind::Mas => "mas",
        Kind::Rustup => "rustup",
    }
}

/// One catalog row: `id|category|kind|default|payload|name|description`.
pub open spec fn row(it: Item) -> Seq<char> {
    it.id@ + "|"@ + it.category@ + "|"@ + kind_word(it.kind) + "|"@ + (if it.default {
        "on"@
    } else {
        "off"@
    }) + "|"@ + it.payload@ + "|"@ + it.name@ + "|"@ + it.description@ + "\n"@
}

pub open spec fn rows(its: Seq<Item>) -> Seq<char>
    decreases its.len(),
{
    if its.len() == 0 {
        Seq::empty()
    } else {
        rows(its.drop_last()) + row(its.last())
    }
}

/// The section heading of a category.
pub open spec fn tag_of(c: Category) -> Seq<char> {
    if c.always {
        c.title@ + " (always installed)"@
    } else {
        c.title@
    }
}

/// Dashes padding a heading of `n` UTF-8 bytes to a common width: 62 less
/// the heading and its 6-byte frame, at least 3.
pub open spec fn rule_len(n: nat) -> nat {
    if n >= 53 {
        3
    } else {
        (56 - n) as nat
    }
}

pub open spec fn dashes(n: nat) -> Seq<char> {
    Seq::new(n, |i: int| '-')
}

/// Bytes a character takes in UTF-8.
pub open spec fn char_width(c: char) -> nat {
    if (c as u32) < 0x80 {
        1
    } else if (c as u32) < 0x800 {
        2
    } else if (c as u32) < 0x10000 {
        3
    } else {
        4
    }
}

/// The UTF-8 length of a text: what `str::len` reports.
pub open spec fn utf8_len(s: Seq<char>) -> nat
    decreases s.len(),
{
    if s.len() == 0 {
        0
    } else {
        utf8_len(s.drop_last()) + char_width(s.last())
    }
}

fn utf8_width(s: &str) -> (r: u128)
    ensures
        r == utf8_len(s@),
{
    let n = s.unicode_len();
    let mut r: u128 = 0;
    let mut i: usize = 0;
    assert(s@.take(0) =~= Seq::<char>::empty());
    while i < n
        invariant
            n == s@.len(),
            i <= n,
            r == utf8_len(s@.take(i as int)),
            r <= 4 * i,
        decreases n - i,
    {
        let c = s.get_char(i);
        let w: u128 = if (c as u32) < 0x80 {
            1
        } else if (c as u32) < 0x800 {
            2
        } else if (c as u32) < 0x10000 {
            3
        } else {
            4
        };
        assert(s@.take(i + 1).drop_last() =~= s@.take(i as int));
        assert(s@.take(i + 1).last() == c);
        r = r + w;
        i = i + 1;
    }
    assert(s@.take(n as int) =~= s@);
    r
}

/// The block of one category: heading, its rows, a blank line — nothing
/// for a category without items.
pub open spec fn section(c: Category, items: Seq<Item>) -> Seq<char> {
    let its = items.filter(|i: Item| i.category@ == c.id@);
    if its.len() == 0 {
        Seq::empty()
    } else {
        "# --- "@ + tag_of(c) + " "@ + dashes(rule_len(utf8_len(tag_of(c)))) + "\n"@
            + rows(its) + "\n"@
    }
}

pub open spec fn sections(cats: Seq<Category>, items: Seq<Item>) -> Seq<char>
    decreases cats.len(),
{
    if cats.len() == 0 {
        Seq::empty()
    } else {
        sections(cats.drop_last(), items) + section(cats.last(), items)
    }
}

/// `    <id>)    echo "<title>" ;;` for each category.
pub open spec fn title_arms(cats: Seq<Category>) -> Seq<char>
    decreases cats.len(),
{
    if cats.len() == 0 {
        Seq::empty()
    } else {
        title_arms(cats.drop_last()) + "    "@ + cats.last().id@ + ")    echo \""@
            + cats.last().title@ + "\" ;;\n"@
    }
}

/// The full `scripts/catalog.sh` for a catalog.
pub open spec fn catalog_text(cats: Seq<Category>, items: Seq<Item>) -> Seq<char> {
    let sel = cats.filter(|c: Category| !c.always);
    HEADER@ + "\nNEWMAC_CATALOG='\n"@ + sections(cats, items) + "'\n\n"@
        + "# Category ids (display order) + human titles.\n"@ + "NEWMAC_CATEGORIES=\""@ + join(
        sel.map_values(|c: Category| c.id@),
        " "@,
    ) + "\"\n"@ + "newmac_category_title() {\n  case \"$1\" in\n"@ + title_arms(sel)
        + "    *)            echo \"$1\" ;;\n  esac\n}\n"@ + FOOTER@
}

fn row_text(it: &Item) -> (r: String)
    ensures
        r@ == row(*it),
{
    let mut out = String::new();
    out.append(it.id.as_str());
    out.append("|");
    out.append(it.category.as_str());
    out.append("|");
    out.append(kind_str(it.kind));
    out.append("|");
    out.append(
        if it.default {
            "on"
        } else {
            "off"
        },
    );
    out.append("|");
    out.append(it.payload.as_str());
    out.append("|");
    out.append(it.name.as_str());
    out.append("|");
    out.append(it.description.as_str());
    out.append("\n");
    assert(out@ =~= row(*it));
    out
}

fn push_rows(out: &mut String, its: &Vec<&Item>)
    ensures
        final(out)@ == old(out)@ + rows(its@.map_values(|x: &Item| *x)),
{
    let ghost o0 = out@;
    let ghost v = its@.map_values(|x: &Item| *x);
    let n = its.len();
    let mut i: usize = 0;
    assert(v.take(0) =~= Seq::<Item>::empty());
    while i < n
        invariant
            n == its@.len(),
            v == its@.map_values(|x: &Item| *x),
            i <= n,
            out@ == o0 + rows(v.take(i as int)),
        decreases n - i,
    {
        let ghost t = v.take(i + 1);
        assert(t.drop_last() =~= v.take(i as int));
        assert(t.last() == *its@[i as int]);
        let line = row_text(its[i]);
        out.append(line.as_str());
        assert(out@ =~= o0 + rows(t));
        i = i + 1;
    }
    assert(v.take(n as int) =~= v);
}

fn push_section(out: &mut String, catalog: &Catalog, c: &Category)
    ensures
        final(out)@ == old(out)@ + section(*c, catalog.items@),
{
    let ghost o0 = out@;
    let its = catalog.items_in(c.id.as_str());
    let ghost fv = catalog.items@.filter(|i: Item| i.category@ == c.id@);
    assert(its@.map_values(|x: &Item| *x) == fv);
    if its.len() == 0 {
        assert(fv.len() == 0);
        assert(out@ =~= o0 + section(*c, catalog.items@));
        return;
    }
    let mut tag = c.title.clone();
    if c.always {
        tag.append(" (always installed)");
    }
    let bytes = utf8_width(tag.as_str());
    let n: usize = if bytes >= 53 {
        3
    } else {
        (56 - bytes) as usize
    };
    out.append("# --- ");
    out.append(tag.as_str());
    out.append(" ");
    let ghost o1 = out@;
    let mut k: usize = 0;
    while k < n
        invariant
            k <= n,
            out@ == o1 + dashes(k as nat),
        decreases n - k,
    {
        out.append("-");
        proof {
            reveal_strlit("-");
        }
        assert(out@ =~= o1 + dashes((k + 1) as nat));
        k = k + 1;
    }
    out.append("\n");
    push_rows(out, &its);
    out.append("\n");
    assert(tag@ == tag_of(*c));
    assert(bytes == utf8_len(tag_of(*c)));
    assert(n == rule_len(utf8_len(tag_of(*c))));
    assert(out@ =~= o0 + section(*c, catalog.items@));
}

fn push_sections(out: &mut String, catalog: &Catalog)
    ensures
        final(out)@ == old(out)@ + sections(catalog.categories@, catalog.items@),
{
    let ghost o1 = out@;
    let n = catalog.categories.len();
    let mut i: usize = 0;
    assert(catalog.categories@.take(0) =~= Seq::<Category>::empty());
    while i < n
        invariant
            n == catalog.categories@.len(),
            i <= n,
            out@ == o1 + sections(catalog.categories@.take(i as int), catalog.items@),
        decreases n - i,
    {
        let ghost t = catalog.categories@.take(i + 1);
        assert(t.drop_last() =~= catalog.categories@.take(i as int));
        assert(t.last() == catalog.categories@[i as int]);
        push_section(out, catalog, &catalog.categories[i]);
        assert(out@ =~= o1 + sections(t, catalog.items@));
        i = i + 1;
    }
    assert(catalog.categories@.take(n as int) =~= catalog.categories@);
}

/// Render the full `scripts/catalog.sh`: every category with items as a
/// headed block of pipe-separated rows, then the selectable category ids and
/// the `newmac_category_title` lookup.
pub fn render(catalog: &Catalog) -> (r: String)
    ensures
        r@ == catalog_text(catalog.categories@, catalog.items@),
{
    let mut out = String::new();
    out.append(HEADER);
    out.append("\nNEWMAC_CATALOG='\n");
    push_sections(&mut out, catalog);
    out.append("'\n\n");
    let sel = catalog.selectable_categories();
    let ghost sv = sel@.map_values(|x: &Category| *x);
    let mut ids: Vec<String> = Vec::new();
    let m = sel.len();
    let mut j: usize = 0;
    while j < m
        invariant
            m == sel@.len(),
            sv == sel@.map_values(|x: &Category| *x),
            j <= m,
            string_views(ids@) == sv.take(j as int).map_values(|c: Category| c.id@),
        decreases m - j,
    {
        let ghost i0 = ids@;
        ids.push(sel[j].id.clone());
        assert(sv[j as int] == *sel@[j as int]);
        assert(sv.take(j + 1) =~= sv.take(j as int).push(sv[j as int]));
        assert(string_views(ids@) =~= string_views(i0).push(sv[j as int].id@));
        assert(string_views(ids@) =~= sv.take(j + 1).map_values(|c: Category| c.id@));
        j = j + 1;
    }
    assert(sv.take(m as int) =~= sv);
    out.append("# Category ids (display order) + human titles.\n");
    out.append("NEWMAC_CATEGORIES=\"");
    let joined = join_strings(&ids, " ");
    out.append(joined.as_str());
    out.append("\"\n");
    out.append("newmac_category_title() {\n  case \"$1\" in\n");
    let ghost o2 = out@;
    let mut j: usize = 0;
    assert(sv.take(0) =~= Seq::<Category>::empty());
    while j < m
        invariant
            m == sel@.len(),
            sv == sel@.map_values(|x: &Category| *x),
            j <= m,
            out@ == o2 + title_arms(sv.take(j as int)),
        decreases m - j,
    {
        let ghost t = sv.take(j + 1);
        assert(t.drop_last() =~= sv.take(j as int));
        assert(t.last() == *sel@[j as int]);
        out.append("    ");
        out.append(sel[j].id.as_str());
        out.append(")    echo \"");
        out.append(sel[j].title.as_str());
        out.append("\" ;;\n");
        assert(out@ =~= o2 + title_arms(t));
        j = j + 1;
    }
    out.append("    *)            echo \"$1\" ;;\n  esac\n}\n");
    out.append(FOOTER);
    assert(out@ =~= catalog_text(catalog.categories@, catalog.items@));
    out
}

} // verus!
