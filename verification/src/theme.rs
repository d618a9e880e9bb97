//! Colour palettes, for the live swatch preview on the theme screen.
//!
//! A theme comes either from the embedded `themes.toml` (as [`RawTheme`]s) or
//! from a bash theme file (`config/themes/<id>.sh`), whose `THEME_*` / `T_*`
//! assignments [`parse_theme_sh`] reads.
use crate::selection::index_of;
use crate::text::{
    compare_text, find_char, has_prefix, lemma_filter_insert, lemma_filter_push, lemma_rank_order, rank_lt, same_text, split_char,
    split_on, starts_with, strip_back, strip_both_str, strip_front, strip_front_str, trim,
    trim_str, views_of, TextOrder,
};
use vstd::prelude::*;

verus! {

/// A 24-bit RGB colour.
#[derive(Debug, Clone, Copy, PartialEq, Eq, Structural)]
pub struct Rgb {
    pub r: u8,
    pub g: u8,
    pub b: u8,
}

/// The value of a hexadecimal digit.
pub open spec fn hex_digit(c: char) -> Option<nat> {
    if '0' <= c && c <= '9' {
        Some((c as nat - '0' as nat) as nat)
    } else if 'a' <= c && c <= 'f' {
        Some((c as nat - 'a' as nat + 10) as nat)
    } else if 'A' <= c && c <= 'F' {
        Some((c as nat - 'A' as nat + 10) as nat)
    } else {
        None
    }
}

pub open spec fn all_hex(s: Seq<char>) -> bool {
    forall|k: int| 0 <= k < s.len() ==> #[trigger] hex_digit(s[k]) is Some
}

/// The number the hexadecimal digits `s` spell.
pub open spec fn hex_nat(s: Seq<char>) -> nat
    decreases s.len(),
{
    if s.len() == 0 {
        0
    } else {
        hex_nat(s.drop_last()) * 16 + hex_digit(s.last())->0
    }
}

/// `u32::from_str_radix(s, 16)`: an optional `+`, then one or more hex
/// digits whose value fits in 32 bits; anything else is an error (`None`).
pub open spec fn radix16(s: Seq<char>) -> Option<u32> {
    let d = if s.len() > 0 && s[0] == '+' {
        s.drop_first()
    } else {
        s
    };
    if d.len() > 0 && all_hex(d) && hex_nat(d) <= u32::MAX {
        Some(hex_nat(d) as u32)
    } else {
        None
    }
}

/// The colour a 24-bit number stands for: red in bits 16–23, green in bits
/// 8–15, blue in bits 0–7.
pub open spec fn rgb_of(n: u32) -> Rgb {
    Rgb { r: ((n / 65536) % 256) as u8, g: ((n / 256) % 256) as u8, b: (n % 256) as u8 }
}

/// The colour of a `#rrggbb`-style hex string (any leading `#`s dropped);
/// black when it does not parse.
pub open spec fn hex_color(hex: Seq<char>) -> Rgb {
    rgb_of(
        match radix16(strip_front(hex, '#')) {
            Some(n) => n,
            None => 0,
        },
    )
}

proof fn lemma_hex_mono(s: Seq<char>, i: int)
    requires
        all_hex(s),
        0 <= i <= s.len(),
    ensures
        hex_nat(s) >= hex_nat(s.take(i)),
    decreases s.len() - i,
{
    if i < s.len() {
        lemma_hex_mono(s, i + 1);
        assert(s.take(i + 1).drop_last() =~= s.take(i));
        assert(s.take(i + 1).last() == s[i]);
    } else {
        assert(s.take(i) =~= s);
    }
}

fn digit_value(c: char) -> (r: Option<u32>)
    ensures
        match hex_digit(c) {
            Some(v) => r == Some(v as u32),
            None => r is None,
        },
{
    if '0' <= c && c <= '9' {
        Some(c as u32 - '0' as u32)
    } else if 'a' <= c && c <= 'f' {
        Some(c as u32 - 'a' as u32 + 10)
    } else if 'A' <= c && c <= 'F' {
        Some(c as u32 - 'A' as u32 + 10)
    } else {
        None
    }
}

/// `u32::from_str_radix(s, 16).ok()`.
pub fn parse_hex(s: &str) -> (r: Option<u32>)
    ensures
        r == radix16(s@),
{
    let n = s.unicode_len();
    let start: usize = if n > 0 && s.get_char(0) == '+' {
        1
    } else {
        0
    };
    let ghost d = s@.skip(start as int);
    proof {
        if start == 1 {
            assert(d =~= s@.drop_first());
        } else {
            assert(d =~= s@);
        }
    }
    if start == n {
        return None;
    }
    // every character a digit?
    let mut i: usize = start;
    while i < n
        invariant
            n == s@.len(),
            start <= i <= n,
            d == s@.skip(start as int),
            d == (if s@.len() > 0 && s@[0] == '+' {
                s@.drop_first()
            } else {
                s@
            }),
            forall|k: int| 0 <= k < i - start ==> #[trigger] hex_digit(d[k]) is Some,
        decreases n - i,
    {
        assert(d[i - start] == s@[i as int]);
        match digit_value(s.get_char(i)) {
            Some(_) => {},
            None => {
                assert(hex_digit(d[i - start]) is None);
                assert(!all_hex(d));
                assert(radix16(s@) is None);
                return None;
            },
        }
        i = i + 1;
    }
    assert(all_hex(d));
    let mut v: u64 = 0;
    let mut i: usize = start;
    assert(d.take(0) =~= Seq::<char>::empty());
    while i < n
        invariant
            n == s@.len(),
            start <= i <= n,
            d == s@.skip(start as int),
            d == (if s@.len() > 0 && s@[0] == '+' {
                s@.drop_first()
            } else {
                s@
            }),
            all_hex(d),
            v == hex_nat(d.take(i - start)),
            v <= u32::MAX,
        decreases n - i,
    {
        assert(d[i - start] == s@[i as int]);
        let dv = digit_value(s.get_char(i));
        let x = match dv {
            Some(x) => x,
            None => {
                assert(hex_digit(d[i - start]) is Some);
                0
            },
        };
        assert(d.take(i + 1 - start).drop_last() =~= d.take(i - start));
        assert(d.take(i + 1 - start).last() == d[i - start]);
        let w = v * 16 + x as u64;
        assert(w == hex_nat(d.take(i + 1 - start)));
        if w > 0xffff_ffff {
            proof {
                lemma_hex_mono(d, i + 1 - start);
                assert(hex_nat(d) > u32::MAX);
                assert(radix16(s@) is None);
            }
            return None;
        }
        v = w;
        i = i + 1;
    }
    assert(d.take(n - start) =~= d);
    Some(v as u32)
}

impl Rgb {
    /// Parse a 6-digit hex colour (leading `#`s are dropped); black when the
    /// text is not hexadecimal.
    pub fn parse(hex: &str) -> (r: Rgb)
        ensures
            r == hex_color(hex@),
    {
        let h = strip_front_str(hex, '#');
        let n = match parse_hex(h) {
            Some(n) => n,
            None => 0,
        };
        Rgb { r: ((n / 65536) % 256) as u8, g: ((n / 256) % 256) as u8, b: (n % 256) as u8 }
    }
}

/// A theme as written down: colours still as hex text.
#[derive(Debug, Clone, PartialEq, Eq)]
pub struct RawTheme {
    pub id: String,
    pub title: String,
    pub ghostty: String,
    pub base: String,
    pub surface: String,
    pub text: String,
    pub subtext: String,
    pub accent: String,
    pub accent2: String,
    pub red: String,
    pub green: String,
    pub yellow: String,
    pub blue: String,
}

/// A named palette. Colours are pre-parsed to RGB for drawing swatches.
#[derive(Debug, Clone, PartialEq, Eq)]
pub struct Theme {
    pub id: String,
    pub title: String,
    pub ghostty: String,
    pub base: Rgb,
    pub surface: Rgb,
    pub text: Rgb,
    pub subtext: Rgb,
    pub accent: Rgb,
    pub accent2: Rgb,
    pub red: Rgb,
    pub green: Rgb,
    pub yellow: Rgb,
    pub blue: Rgb,
}

impl Theme {
    /// The swatches shown in the preview strip, in draw order.
    pub fn swatches(&self) -> (r: [Rgb; 6])
        ensures
            r@ == seq![self.accent, self.accent2, self.red, self.green, self.yellow, self.blue],
    {
        let r = [self.accent, self.accent2, self.red, self.green, self.yellow, self.blue];
        assert(r@ =~= seq![self.accent, self.accent2, self.red, self.green, self.yellow, self.blue]);
        r
    }
}

/// The theme of a raw one: names kept, colours parsed.
pub open spec fn built(raw: RawTheme) -> Theme {
    Theme {
        id: raw.id,
        title: raw.title,
        ghostty: raw.ghostty,
        base: hex_color(raw.base@),
        surface: hex_color(raw.surface@),
        text: hex_color(raw.text@),
        subtext: hex_color(raw.subtext@),
        accent: hex_color(raw.accent@),
        accent2: hex_color(raw.accent2@),
        red: hex_color(raw.red@),
        green: hex_color(raw.green@),
        yellow: hex_color(raw.yellow@),
        blue: hex_color(raw.blue@),
    }
}

/// Parse the colours of a raw theme.
pub fn build(raw: RawTheme) -> (r: Theme)
    ensures
        r == built(raw),
{
    let base = Rgb::parse(raw.base.as_str());
    let surface = Rgb::parse(raw.surface.as_str());
    let text = Rgb::parse(raw.text.as_str());
    let subtext = Rgb::parse(raw.subtext.as_str());
    let accent = Rgb::parse(raw.accent.as_str());
    let accent2 = Rgb::parse(raw.accent2.as_str());
    let red = Rgb::parse(raw.red.as_str());
    let green = Rgb::parse(raw.green.as_str());
    let yellow = Rgb::parse(raw.yellow.as_str());
    let blue = Rgb::parse(raw.blue.as_str());
    Theme {
        id: raw.id,
        title: raw.title,
        ghostty: raw.ghostty,
        base,
        surface,
        text,
        subtext,
        accent,
        accent2,
        red,
        green,
        yellow,
        blue,
    }
}

/// `tokyonight` ranks first, every other theme after it.
pub open spec fn theme_rank(id: Seq<char>) -> int {
    if id == "tokyonight"@ {
        0
    } else {
        1
    }
}

/// `a` is listed before `b`: `tokyonight` first, then by id.
pub open spec fn theme_before(a: Theme, b: Theme) -> bool {
    rank_lt(theme_rank(a.id@), a.id@, theme_rank(b.id@), b.id@)
}

fn theme_goes_before(a: &Theme, b: &Theme) -> (r: bool)
    ensures
        r == theme_before(*a, *b),
{
    let ra: u8 = if same_text(a.id.as_str(), "tokyonight") {
        0
    } else {
        1
    };
    let rb: u8 = if same_text(b.id.as_str(), "tokyonight") {
        0
    } else {
        1
    };
    if ra != rb {
        ra < rb
    } else {
        compare_text(a.id.as_str(), b.id.as_str()) == TextOrder::Before
    }
}

/// The themes in `s` whose id is `k`, in their order in `s`.
pub open spec fn themes_with_id(s: Seq<Theme>, k: Seq<char>) -> Seq<Theme> {
    s.filter(|t: Theme| t.id@ == k)
}

/// Put `tokyonight` (the default) first and the rest in id order; themes
/// with the same id keep their order.
pub fn sort_tokyonight_first(themes: &mut Vec<Theme>)
    ensures
        final(themes)@.to_multiset() == old(themes)@.to_multiset(),
        forall|i: int, j: int|
            0 <= i < j < final(themes)@.len() ==> !theme_before(final(themes)@[j], final(themes)@[i]),
        forall|k: Seq<char>|
            #[trigger] themes_with_id(final(themes)@, k) == themes_with_id(old(themes)@, k),
{
    broadcast use vstd::seq_lib::group_to_multiset_ensures;

    let mut rest: Vec<Theme> = Vec::new();
    std::mem::swap(&mut rest, themes);
    let mut out: Vec<Theme> = Vec::new();
    let ghost orig = rest@;
    let ghost mut taken: Seq<Theme> = Seq::empty();
    while rest.len() > 0
        invariant
            orig == taken + rest@,
            out@.to_multiset() == taken.to_multiset(),
            forall|i: int, j: int| 0 <= i < j < out@.len() ==> !theme_before(out@[j], out@[i]),
            forall|k: Seq<char>| #[trigger] themes_with_id(out@, k) == themes_with_id(taken, k),
        decreases rest@.len(),
    {
        let ghost r0 = rest@;
        let ghost t0 = taken;
        let x = rest.remove(0);
        proof {
            assert(taken.push(x) + rest@ =~= taken + r0);
            taken = taken.push(x);
            vstd::seq_lib::to_multiset_build(t0, x);
        }
        let n = out.len();
        let mut p: usize = 0;
        while p < n && !theme_goes_before(&x, &out[p])
            invariant
                n == out@.len(),
                p <= n,
                forall|j: int| 0 <= j < p ==> !theme_before(x, #[trigger] out@[j]),
            decreases n - p,
        {
            p = p + 1;
        }
        let ghost o0 = out@;
        proof {
            // everything from p on goes strictly after x
            assert forall|j: int| p <= j < o0.len() implies theme_before(x, #[trigger] o0[j]) by {
                let y = o0[p as int];
                let z = o0[j];
                assert(theme_before(x, y));
                if j > p {
                    assert(!theme_before(z, y));
                }
                lemma_rank_order(
                    theme_rank(y.id@),
                    y.id@,
                    theme_rank(z.id@),
                    z.id@,
                    theme_rank(x.id@),
                    x.id@,
                );
                lemma_rank_order(
                    theme_rank(x.id@),
                    x.id@,
                    theme_rank(y.id@),
                    y.id@,
                    theme_rank(z.id@),
                    z.id@,
                );
            }
            assert forall|i: int, j: int|
                0 <= i < j < o0.len() + 1 implies !theme_before(
                o0.insert(p as int, x)[j],
                o0.insert(p as int, x)[i],
            ) by {
                o0.insert_ensures(p as int, x);
                if i == p {
                    let z = o0[j - 1];
                    lemma_rank_order(
                        theme_rank(x.id@),
                        x.id@,
                        theme_rank(z.id@),
                        z.id@,
                        theme_rank(x.id@),
                        x.id@,
                    );
                }
            }
            assert forall|k: Seq<char>|
                #[trigger] themes_with_id(o0.insert(p as int, x), k) == themes_with_id(taken, k) by {
                assert forall|j: int| p <= j < o0.len() && x.id@ == k implies !(#[trigger] o0[j].id@
                    == k) by {
                    lemma_rank_order(
                        theme_rank(x.id@),
                        x.id@,
                        theme_rank(x.id@),
                        x.id@,
                        theme_rank(x.id@),
                        x.id@,
                    );
                }
                let pred = |t: Theme| t.id@ == k;
                lemma_filter_insert(o0, p as int, x, pred);
                lemma_filter_push(t0, x, pred);
                assert(themes_with_id(o0, k) == themes_with_id(t0, k));
                assert(themes_with_id(o0.insert(p as int, x), k) == o0.insert(p as int, x).filter(
                    pred,
                ));
                assert(themes_with_id(taken, k) == t0.push(x).filter(pred));
            }
        }
        out.insert(p, x);
        proof {
            vstd::seq_lib::to_multiset_insert(o0, p as int, x);
            assert(out@ == o0.insert(p as int, x));
        }
    }
    assert(taken =~= orig);
    *themes = out;
}

// ---- bash theme files ------------------------------------------------------

/// The text before the first `#` (all of it when there is none).
pub open spec fn before_hash(s: Seq<char>) -> Seq<char> {
    match index_of(s, '#') {
        Some(i) => s.take(i),
        None => s,
    }
}

/// The value a line assigns to `key`, if it is a `key=value` line: the text
/// after `=` up to any `# comment`, trimmed, then stripped of surrounding
/// `"` and then `'` characters.
pub open spec fn sh_line_value(line: Seq<char>, key: Seq<char>) -> Option<Seq<char>> {
    let t = trim(line);
    if has_prefix(t, key) && t.len() > key.len() && t[key.len() as int] == '=' {
        let v = trim(before_hash(t.skip(key.len() as int + 1)));
        Some(strip_back(strip_front(strip_back(strip_front(v, '"'), '"'), '\''), '\''))
    } else {
        None
    }
}

/// The value of the first line that assigns `key`.
pub open spec fn sh_get(lines: Seq<Seq<char>>, key: Seq<char>) -> Option<Seq<char>>
    decreases lines.len(),
{
    if lines.len() == 0 {
        None
    } else {
        match sh_line_value(lines[0], key) {
            Some(v) => Some(v),
            None => sh_get(lines.drop_first(), key),
        }
    }
}

fn line_value(line: &str, key: &str) -> (r: Option<String>)
    ensures
        match sh_line_value(line@, key@) {
            Some(v) => r matches Some(s) && s@ == v,
            None => r is None,
        },
{
    let t = trim_str(line);
    if !starts_with(t, key) {
        return None;
    }
    let n = t.unicode_len();
    let k = key.unicode_len();
    if n <= k || t.get_char(k) != '=' {
        return None;
    }
    let rest = t.substring_char(k + 1, n);
    assert(rest@ =~= t@.skip(k as int + 1));
    let upto = match find_char(rest, '#') {
        Some(i) => {
            proof {
                crate::selection::lemma_index_of(rest@, '#', Some(i as int));
            }
            assert(rest@.subrange(0, i as int) =~= rest@.take(i as int));
            rest.substring_char(0, i)
        },
        None => {
            proof {
                crate::selection::lemma_index_of(rest@, '#', None);
            }
            rest
        },
    };
    let v = trim_str(upto);
    let v = strip_both_str(v, '"');
    let v = strip_both_str(v, '\'');
    Some(v.to_owned())
}

fn sh_value(lines: &Vec<&str>, key: &str) -> (r: Option<String>)
    ensures
        match sh_get(views_of(lines@), key@) {
            Some(v) => r matches Some(s) && s@ == v,
            None => r is None,
        },
{
    let ghost lv = views_of(lines@);
    let n = lines.len();
    let mut i: usize = 0;
    assert(lv.skip(0) =~= lv);
    while i < n
        invariant
            n == lines@.len(),
            lv == views_of(lines@),
            i <= n,
            sh_get(lv, key@) == sh_get(lv.skip(i as int), key@),
        decreases n - i,
    {
        assert(lv.skip(i as int)[0] == lines@[i as int]@);
        assert(lv.skip(i as int).drop_first() =~= lv.skip(i + 1));
        match line_value(lines[i], key) {
            Some(v) => {
                return Some(v);
            },
            None => {},
        }
        i = i + 1;
    }
    None
}

/// What a bash theme file with id `id` describes: the `T_*` colours are
/// required; the title and Ghostty theme name fall back to the id.
pub open spec fn theme_from_sh(id: Seq<char>, text: Seq<char>) -> Option<
    (Seq<char>, Seq<char>, Seq<Seq<char>>),
> {
    let ls = split_char(text, '\n');
    let keys = seq![
        "T_BASE"@,
        "T_SURFACE"@,
        "T_TEXT"@,
        "T_SUBTEXT"@,
        "T_ACCENT"@,
        "T_ACCENT2"@,
        "T_RED"@,
        "T_GREEN"@,
        "T_YELLOW"@,
        "T_BLUE"@,
    ];
    if forall|k: int| 0 <= k < 10 ==> #[trigger] sh_get(ls, keys[k]) is Some {
        Some(
            (
                match sh_get(ls, "THEME_TITLE"@) {
                    Some(v) => v,
                    None => id,
                },
                match sh_get(ls, "THEME_GHOSTTY"@) {
                    Some(v) => v,
                    None => id,
                },
                Seq::new(10, |k: int| sh_get(ls, keys[k])->0),
            ),
        )
    } else {
        None
    }
}

/// The raw theme's title, Ghostty name and colours, in the order of
/// [`theme_from_sh`].
pub open spec fn raw_parts(t: RawTheme) -> (Seq<char>, Seq<char>, Seq<Seq<char>>) {
    (
        t.title@,
        t.ghostty@,
        seq![
            t.base@,
            t.surface@,
            t.text@,
            t.subtext@,
            t.accent@,
            t.accent2@,
            t.red@,
            t.green@,
            t.yellow@,
            t.blue@,
        ],
    )
}

/// Pull the `THEME_*` / `T_*` assignments out of a bash theme file.
pub fn parse_theme_sh(id: &str, text: &str) -> (r: Option<RawTheme>)
    ensures
        match theme_from_sh(id@, text@) {
            Some(parts) => r matches Some(t) && raw_parts(t) == parts && t.id@ == id@,
            None => r is None,
        },
{
    let lines = split_on(text, '\n');
    let ghost ls = split_char(text@, '\n');
    let ghost keys = seq![
        "T_BASE"@,
        "T_SURFACE"@,
        "T_TEXT"@,
        "T_SUBTEXT"@,
        "T_ACCENT"@,
        "T_ACCENT2"@,
        "T_RED"@,
        "T_GREEN"@,
        "T_YELLOW"@,
        "T_BLUE"@,
    ];
    let title = match sh_value(&lines, "THEME_TITLE") {
        Some(v) => v,
        None => id.to_owned(),
    };
    let ghostty = match sh_value(&lines, "THEME_GHOSTTY") {
        Some(v) => v,
        None => id.to_owned(),
    };
    let base = sh_value(&lines, "T_BASE");
    let surface = sh_value(&lines, "T_SURFACE");
    let text_c = sh_value(&lines, "T_TEXT");
    let subtext = sh_value(&lines, "T_SUBTEXT");
    let accent = sh_value(&lines, "T_ACCENT");
    let accent2 = sh_value(&lines, "T_ACCENT2");
    let red = sh_value(&lines, "T_RED");
    let green = sh_value(&lines, "T_GREEN");
    let yellow = sh_value(&lines, "T_YELLOW");
    let blue = sh_value(&lines, "T_BLUE");
    assert(keys[0] == "T_BASE"@ && keys[1] == "T_SURFACE"@ && keys[2] == "T_TEXT"@ && keys[3]
        == "T_SUBTEXT"@ && keys[4] == "T_ACCENT"@ && keys[5] == "T_ACCENT2"@ && keys[6]
        == "T_RED"@ && keys[7] == "T_GREEN"@ && keys[8] == "T_YELLOW"@ && keys[9] == "T_BLUE"@);
    match (base, surface, text_c, subtext, accent, accent2, red, green, yellow, blue) {
        (
            Some(base),
            Some(surface),
            Some(text_c),
            Some(subtext),
            Some(accent),
            Some(accent2),
            Some(red),
            Some(green),
            Some(yellow),
            Some(blue),
        ) => {
            let t = RawTheme {
                id: id.to_owned(),
                title,
                ghostty,
                base,
                surface,
                text: text_c,
                subtext,
                accent,
                accent2,
                red,
                green,
                yellow,
                blue,
            };
            proof {
                assert forall|k: int| 0 <= k < 10 implies #[trigger] sh_get(ls, keys[k]) is Some by {
                }
                let parts = theme_from_sh(id@, text@)->0;
                assert(raw_parts(t).2 =~= parts.2);
            }
            Some(t)
        },
        _ => {
            proof {
                assert(!(forall|k: int| 0 <= k < 10 ==> #[trigger] sh_get(ls, keys[k]) is Some));
            }
            None
        },
    }
}

} // verus!
