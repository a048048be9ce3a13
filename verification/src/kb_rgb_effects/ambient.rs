//! The ambient effect: its colour palette, the palette file format, the
//! colour that ImageMagick reports, and snapping a colour to the palette.
use vstd::prelude::*;
use crate::text::{
    chars_of, decimal, find_char, find_in, line_ranges, lines, parse_range, parse_unsigned,
    push_char, push_decimal, push_str, split, split_ranges, string_of, trim, trim_range, is_ws,
    is_digit, all_digits, strip_cr, lemma_decimal_digits,
    lemma_parse_decimal, lemma_digit_not, lemma_trim_unchanged, lemma_trim_start_at,
    lemma_trim_end_at, lemma_split_concat, lemma_split_none,
    lemma_find_char_at, lemma_find_char_none, first_at, trim_bounds, lemma_trim_between, lemma_trim_bounds_exist,
};

verus! {

/// A palette colour with its human-readable label.
#[derive(Debug)]
pub struct PaletteEntry {
    pub r: u8,
    pub g: u8,
    pub b: u8,
    pub label: String,
}

/// A palette entry as plain values: red, green, blue and the label's text.
pub type EntryView = (u8, u8, u8, Seq<char>);

impl View for PaletteEntry {
    type V = EntryView;

    open spec fn view(&self) -> EntryView {
        (self.r, self.g, self.b, self.label@)
    }
}

impl PaletteEntry {
    /// A copy of this entry.
    pub fn duplicate(&self) -> (e: PaletteEntry)
        ensures
            e@ == self@,
    {
        PaletteEntry { r: self.r, g: self.g, b: self.b, label: self.label.clone() }
    }
}

/// The entries of a palette as plain values.
pub open spec fn palette_view(p: Seq<PaletteEntry>) -> Seq<EntryView> {
    p.map_values(|e: PaletteEntry| e@)
}

/// The label given to a colour that has none: `(R,G,B)`.
pub open spec fn rgb_label(r: u8, g: u8, b: u8) -> Seq<char> {
    seq!['('] + decimal(r as nat) + seq![','] + decimal(g as nat) + seq![','] + decimal(
        b as nat,
    ) + seq![')']
}

/// Builds the label `(R,G,B)`.
pub fn rgb_label_string(r: u8, g: u8, b: u8) -> (s: String)
    ensures
        s@ == rgb_label(r, g, b),
{
    let mut s = String::new();
    push_char(&mut s, '(');
    push_decimal(&mut s, r as u64);
    push_char(&mut s, ',');
    push_decimal(&mut s, g as u64);
    push_char(&mut s, ',');
    push_decimal(&mut s, b as u64);
    push_char(&mut s, ')');
    assert(s@ =~= rgb_label(r, g, b));
    s
}

/// A colour channel: an unsigned number no larger than 255.
pub open spec fn parse_channel(s: Seq<char>) -> Option<u8> {
    match parse_unsigned(s, 255) {
        Some(v) => Some(v as u8),
        None => None,
    }
}

/// What one line of the palette file holds: `R,G,B # Label` or `R,G,B`.
/// Blank lines and lines that start with `#` hold nothing; so does a line
/// whose colour part is not three comma-separated channels. Each piece is
/// trimmed, and a missing or empty label becomes `(R,G,B)`.
pub open spec fn palette_line_spec(line: Seq<char>) -> Option<EntryView> {
    let t = trim(line);
    if t.len() == 0 || t[0] == '#' {
        None
    } else {
        let rgb_part = match find_char(t, '#') {
            Some(i) => t.take(i),
            None => t,
        };
        let label_part = match find_char(t, '#') {
            Some(i) => trim(t.skip(i + 1)),
            None => Seq::<char>::empty(),
        };
        let parts = split(rgb_part, ',');
        if parts.len() != 3 {
            None
        } else {
            match (
                parse_channel(trim(parts[0])),
                parse_channel(trim(parts[1])),
                parse_channel(trim(parts[2])),
            ) {
                (Some(r), Some(g), Some(b)) => Some(
                    (
                        r,
                        g,
                        b,
                        if label_part.len() == 0 {
                            rgb_label(r, g, b)
                        } else {
                            label_part
                        },
                    ),
                ),
                _ => None,
            }
        }
    }
}

/// Parses a whole text as a channel value, as `str::parse::<u8>` does.
pub fn parse_u8(s: &str) -> (r: Option<u8>)
    ensures
        r == parse_channel(s@),
{
    let v = chars_of(s);
    assert(v@.subrange(0, v@.len() as int) =~= v@);
    match parse_range(&v, 0, v.len(), 255) {
        Some(x) => Some(x as u8),
        None => None,
    }
}

/// Parses the channel held by `v[start..end]` once trimmed.
fn channel_in(v: &Vec<char>, start: usize, end: usize) -> (r: Option<u8>)
    requires
        start <= end <= v@.len(),
    ensures
        r == parse_channel(trim(v@.subrange(start as int, end as int))),
{
    let (a, b) = trim_range(v, start, end);
    match parse_range(v, a, b, 255) {
        Some(x) => Some(x as u8),
        None => None,
    }
}

/// Parses the palette line held by `v[start..end]`.
fn entry_in(v: &Vec<char>, start: usize, end: usize) -> (r: Option<PaletteEntry>)
    requires
        start <= end <= v@.len(),
    ensures
        palette_line_spec(v@.subrange(start as int, end as int)) == match r {
            Some(e) => Some(e@),
            None => None,
        },
{
    let (a, b) = trim_range(v, start, end);
    let ghost t = trim(v@.subrange(start as int, end as int));
    assert(t == v@.subrange(a as int, b as int));
    if a == b || v[a] == '#' {
        proof {
            if a < b {
                assert(t[0] == v@[a as int]);
            }
        }
        return None;
    }
    assert(t[0] == v@[a as int]);
    let found = find_in(v, a, b, '#');
    let rgb_end;
    let label_start;
    let label_end;
    match found {
        Some(i) => {
            rgb_end = i;
            let (ls, le) = trim_range(v, i + 1, b);
            label_start = ls;
            label_end = le;
            assert(t.take(i - a) =~= v@.subrange(a as int, i as int));
            assert(t.skip(i - a + 1) =~= v@.subrange(i + 1, b as int));
        },
        None => {
            rgb_end = b;
            label_start = b;
            label_end = b;
            assert(v@.subrange(b as int, b as int) =~= Seq::<char>::empty());
        },
    }
    let ghost rgb_part = v@.subrange(a as int, rgb_end as int);
    let ghost label_part = v@.subrange(label_start as int, label_end as int);
    assert(rgb_part == match find_char(t, '#') {
        Some(i) => t.take(i),
        None => t,
    });
    assert(label_part == match find_char(t, '#') {
        Some(i) => trim(t.skip(i + 1)),
        None => Seq::<char>::empty(),
    });
    let parts = split_ranges(v, a, rgb_end, ',');
    if parts.len() != 3 {
        return None;
    }
    let (s0, e0) = parts[0];
    let (s1, e1) = parts[1];
    let (s2, e2) = parts[2];
    let r = match channel_in(v, s0, e0) {
        Some(x) => x,
        None => {
            return None;
        },
    };
    let g = match channel_in(v, s1, e1) {
        Some(x) => x,
        None => {
            return None;
        },
    };
    let bl = match channel_in(v, s2, e2) {
        Some(x) => x,
        None => {
            return None;
        },
    };
    let label = if label_start == label_end {
        rgb_label_string(r, g, bl)
    } else {
        string_of(v, label_start, label_end)
    };
    Some(PaletteEntry { r, g, b: bl, label })
}

/// Parses one line of the palette file.
pub fn parse_palette_line(line: &str) -> (r: Option<PaletteEntry>)
    ensures
        palette_line_spec(line@) == match r {
            Some(e) => Some(e@),
            None => None,
        },
{
    let v = chars_of(line);
    assert(v@.subrange(0, v@.len() as int) =~= line@);
    entry_in(&v, 0, v.len())
}

/// The squared distance, in RGB space, between a colour and a palette entry.
pub open spec fn distance2(r: u8, g: u8, b: u8, e: EntryView) -> int {
    (r - e.0) * (r - e.0) + (g - e.1) * (g - e.1) + (b - e.2) * (b - e.2)
}

/// Entry `i` is the first of the entries nearest to the colour.
pub open spec fn first_nearest(r: u8, g: u8, b: u8, p: Seq<EntryView>, i: int) -> bool {
    &&& 0 <= i < p.len()
    &&& forall|j: int| 0 <= j < p.len() ==> distance2(r, g, b, p[i]) <= distance2(r, g, b, p[j])
    &&& forall|j: int| 0 <= j < i ==> distance2(r, g, b, p[j]) > distance2(r, g, b, p[i])
}

/// The colour that snapping gives: that of the first nearest entry, or the
/// colour itself when the palette is empty.
pub open spec fn snap_spec(r: u8, g: u8, b: u8, p: Seq<EntryView>) -> (u8, u8, u8) {
    if p.len() == 0 {
        (r, g, b)
    } else {
        let i = choose|i: int| first_nearest(r, g, b, p, i);
        (p[i].0, p[i].1, p[i].2)
    }
}

/// Only one entry is the first nearest.
pub proof fn lemma_first_nearest_unique(r: u8, g: u8, b: u8, p: Seq<EntryView>, i: int, k: int)
    requires
        first_nearest(r, g, b, p, i),
        first_nearest(r, g, b, p, k),
    ensures
        i == k,
{
    if i < k {
        assert(distance2(r, g, b, p[i]) > distance2(r, g, b, p[k]));
        assert(distance2(r, g, b, p[k]) <= distance2(r, g, b, p[i]));
    }
    if k < i {
        assert(distance2(r, g, b, p[k]) > distance2(r, g, b, p[i]));
        assert(distance2(r, g, b, p[i]) <= distance2(r, g, b, p[k]));
    }
}

fn channel_distance(x: u8, y: u8) -> (d: u32)
    ensures
        d == (x - y) * (x - y),
        d <= 65025,
{
    let dx: i32 = x as i32 - y as i32;
    assert(dx * dx <= 65025 && dx * dx >= 0) by (nonlinear_arith)
        requires
            -255 <= dx <= 255,
    ;
    (dx * dx) as u32
}

/// Finds the nearest palette colour by Euclidean distance in RGB space; among
/// equally near entries the first wins. An empty palette leaves the colour as
/// it is.
pub fn snap_to_palette(r: u8, g: u8, b: u8, palette: &[PaletteEntry]) -> (res: (u8, u8, u8))
    ensures
        res == snap_spec(r, g, b, palette_view(palette@)),
        palette@.len() == 0 ==> res == (r, g, b),
        palette@.len() > 0 ==> exists|i: int|
            first_nearest(r, g, b, palette_view(palette@), i) && res == (
                palette@[i].r,
                palette@[i].g,
                palette@[i].b,
            ),
        palette@.len() > 0 ==> exists|i: int|
            #![trigger palette@[i]]
            0 <= i < palette@.len() && res == (palette@[i].r, palette@[i].g, palette@[i].b) && (
            forall|j: int|
                0 <= j < palette@.len() ==> (r - palette@[i].r) * (r - palette@[i].r) + (g
                    - palette@[i].g) * (g - palette@[i].g) + (b - palette@[i].b) * (b
                    - palette@[i].b) <= (r - (#[trigger] palette@[j]).r) * (r - palette@[j].r) + (g
                    - palette@[j].g) * (g - palette@[j].g) + (b - palette@[j].b) * (b
                    - palette@[j].b)) && (forall|j: int|
                0 <= j < i ==> (r - palette@[i].r) * (r - palette@[i].r) + (g - palette@[i].g) * (g
                    - palette@[i].g) + (b - palette@[i].b) * (b - palette@[i].b) < (r - (
                #[trigger] palette@[j]).r) * (r - palette@[j].r) + (g - palette@[j].g) * (g
                    - palette@[j].g) + (b - palette@[j].b) * (b - palette@[j].b)),
{
    let ghost p = palette_view(palette@);
    let mut best = (r, g, b);
    let mut best_dist: u32 = u32::MAX;
    let ghost mut bi: int = 0;
    let n = palette.len();
    let mut idx: usize = 0;
    while idx < n
        invariant
            n == palette@.len(),
            p == palette_view(palette@),
            idx <= n,
            idx == 0 ==> best == (r, g, b),
            idx > 0 ==> {
                &&& 0 <= bi < idx
                &&& best_dist == distance2(r, g, b, p[bi])
                &&& best == (p[bi].0, p[bi].1, p[bi].2)
                &&& forall|j: int| 0 <= j < idx ==> distance2(r, g, b, p[bi]) <= distance2(r, g, b, p[j])
                &&& forall|j: int| 0 <= j < bi ==> distance2(r, g, b, p[j]) > distance2(r, g, b, p[bi])
            },
            idx == 0 ==> best_dist == u32::MAX,
        decreases n - idx,
    {
        let e = &palette[idx];
        assert(p[idx as int] == e@);
        let dist = channel_distance(r, e.r) + channel_distance(g, e.g) + channel_distance(b, e.b);
        if dist < best_dist {
            best_dist = dist;
            best = (e.r, e.g, e.b);
            proof {
                bi = idx as int;
            }
        }
        idx = idx + 1;
    }
    proof {
        if n > 0 {
            assert(first_nearest(r, g, b, p, bi));
            let k = choose|k: int| first_nearest(r, g, b, p, k);
            lemma_first_nearest_unique(r, g, b, p, bi, k);
            assert forall|j: int| 0 <= j < n implies #[trigger] p[j] == palette@[j]@ by {}
            let e = palette@[bi];
            assert forall|j: int| 0 <= j < n implies (r - e.r) * (r - e.r) + (g - e.g) * (g - e.g) + (
            b - e.b) * (b - e.b) <= (r - (#[trigger] palette@[j]).r) * (r - palette@[j].r) + (g
                - palette@[j].g) * (g - palette@[j].g) + (b - palette@[j].b) * (b
                - palette@[j].b) by {
                assert(p[j] == palette@[j]@);
                assert(p[bi] == e@);
                assert(distance2(r, g, b, p[bi]) <= distance2(r, g, b, p[j]));
            }
            assert forall|j: int| 0 <= j < bi implies (r - e.r) * (r - e.r) + (g - e.g) * (g - e.g)
                + (b - e.b) * (b - e.b) < (r - (#[trigger] palette@[j]).r) * (r - palette@[j].r)
                + (g - palette@[j].g) * (g - palette@[j].g) + (b - palette@[j].b) * (b
                - palette@[j].b) by {
                assert(p[j] == palette@[j]@);
                assert(p[bi] == e@);
                assert(distance2(r, g, b, p[j]) > distance2(r, g, b, p[bi]));
            }
            assert(best == (palette@[bi].r, palette@[bi].g, palette@[bi].b));
        }
    }
    best
}


// ---------------------------------------------------------------------------
// The palette file
// ---------------------------------------------------------------------------

/// How one entry is written to the palette file: `R,G,B # Label`.
pub open spec fn entry_line(e: EntryView) -> Seq<char> {
    decimal(e.0 as nat) + seq![','] + decimal(e.1 as nat) + seq![','] + decimal(e.2 as nat)
        + seq![' ', '#', ' '] + e.3
}

/// The entries' lines, each followed by a newline.
pub open spec fn entry_lines(es: Seq<EntryView>) -> Seq<char>
    decreases es.len(),
{
    if es.len() == 0 {
        Seq::<char>::empty()
    } else {
        entry_lines(es.drop_last()) + entry_line(es.last()) + seq!['\n']
    }
}

/// The palette file's text: the entries' lines joined by newlines, and one
/// newline at the end (so an empty palette is written as a single newline).
pub open spec fn palette_file_spec(es: Seq<EntryView>) -> Seq<char> {
    if es.len() == 0 {
        seq!['\n']
    } else {
        entry_lines(es)
    }
}

/// Appends the file line of `e` to `out`.
fn push_entry_line(out: &mut String, e: &PaletteEntry)
    ensures
        final(out)@ == old(out)@ + entry_line(e@),
{
    push_decimal(out, e.r as u64);
    push_char(out, ',');
    push_decimal(out, e.g as u64);
    push_char(out, ',');
    push_decimal(out, e.b as u64);
    push_char(out, ' ');
    push_char(out, '#');
    push_char(out, ' ');
    push_str(out, e.label.as_str());
    assert(out@ =~= old(out)@ + entry_line(e@));
}

/// The text that the palette file holds for `palette`.
pub fn palette_file_contents(palette: &[PaletteEntry]) -> (s: String)
    ensures
        s@ == palette_file_spec(palette_view(palette@)),
{
    let ghost p = palette_view(palette@);
    let mut s = String::new();
    let n = palette.len();
    if n == 0 {
        push_char(&mut s, '\n');
        assert(s@ =~= seq!['\n']);
        return s;
    }
    let mut i: usize = 0;
    while i < n
        invariant
            n == palette@.len(),
            p == palette_view(palette@),
            i <= n,
            s@ == entry_lines(p.take(i as int)),
        decreases n - i,
    {
        assert(p.take(i + 1).drop_last() =~= p.take(i as int));
        assert(p.take(i + 1).last() == palette@[i as int]@);
        push_entry_line(&mut s, &palette[i]);
        push_char(&mut s, '\n');
        i = i + 1;
    }
    assert(p.take(n as int) =~= p);
    s
}

/// The entries that the lines `ls` hold, in order; lines that hold none are
/// skipped.
pub open spec fn parsed_entries(ls: Seq<Seq<char>>) -> Seq<EntryView>
    decreases ls.len(),
{
    if ls.len() == 0 {
        Seq::<EntryView>::empty()
    } else {
        let init = parsed_entries(ls.drop_last());
        match palette_line_spec(ls.last()) {
            Some(e) => init.push(e),
            None => init,
        }
    }
}

/// The palette that a palette file holds: its entries, or nothing when no line
/// holds an entry (the caller then falls back to the defaults).
pub open spec fn palette_from_file_spec(s: Seq<char>) -> Option<Seq<EntryView>> {
    let es = parsed_entries(lines(s));
    if es.len() == 0 {
        None
    } else {
        Some(es)
    }
}

/// Reads the palette out of the palette file's text.
pub fn palette_from_file(contents: &str) -> (r: Option<Vec<PaletteEntry>>)
    ensures
        palette_from_file_spec(contents@) == match r {
            Some(p) => Some(palette_view(p@)),
            None => None,
        },
{
    let v = chars_of(contents);
    let ls = line_ranges(&v);
    let ghost lv = lines(contents@);
    let mut out: Vec<PaletteEntry> = Vec::new();
    let n = ls.len();
    let mut i: usize = 0;
    while i < n
        invariant
            v@ == contents@,
            lv == lines(contents@),
            n == ls@.len(),
            n == lv.len(),
            forall|j: int|
                0 <= j < n ==> (#[trigger] ls@[j]).0 <= ls@[j].1 <= v@.len() && v@.subrange(
                    ls@[j].0 as int,
                    ls@[j].1 as int,
                ) == lv[j],
            i <= n,
            palette_view(out@) == parsed_entries(lv.take(i as int)),
        decreases n - i,
    {
        let (a, b) = ls[i];
        assert(lv.take(i + 1).drop_last() =~= lv.take(i as int));
        assert(lv.take(i + 1).last() == lv[i as int]);
        match entry_in(&v, a, b) {
            Some(e) => {
                out.push(e);
                assert(palette_view(out@) =~= parsed_entries(lv.take(i + 1)));
            },
            None => {
            },
        }
        i = i + 1;
    }
    assert(lv.take(n as int) =~= lv);
    if out.len() == 0 {
        None
    } else {
        Some(out)
    }
}

/// The palette used when no palette file holds one.
pub open spec fn default_palette_spec() -> Seq<EntryView> {
    seq![
        (255u8, 0u8, 0u8, "Red"@),
        (255u8, 128u8, 0u8, "Orange"@),
        (255u8, 255u8, 0u8, "Yellow"@),
        (128u8, 255u8, 0u8, "Yellow-green"@),
        (0u8, 255u8, 0u8, "Green"@),
        (0u8, 255u8, 128u8, "Green-cyan"@),
        (0u8, 255u8, 255u8, "Cyan"@),
        (0u8, 128u8, 255u8, "Sky blue"@),
        (0u8, 0u8, 255u8, "Blue"@),
        (100u8, 12u8, 223u8, "Purple"@),
        (255u8, 0u8, 255u8, "Magenta"@),
        (255u8, 0u8, 128u8, "Pink"@),
    ]
}

fn entry(r: u8, g: u8, b: u8, label: &str) -> (e: PaletteEntry)
    ensures
        e@ == (r, g, b, label@),
{
    PaletteEntry { r, g, b, label: label.to_owned() }
}


/// The default palette, entry by entry: twelve colours from red round to
/// pink, each with its name.
pub proof fn lemma_default_palette_entries()
    ensures
        default_palette_spec().len() == 12,
        default_palette_spec()[0] == (255u8, 0u8, 0u8, "Red"@),
        default_palette_spec()[1] == (255u8, 128u8, 0u8, "Orange"@),
        default_palette_spec()[2] == (255u8, 255u8, 0u8, "Yellow"@),
        default_palette_spec()[3] == (128u8, 255u8, 0u8, "Yellow-green"@),
        default_palette_spec()[4] == (0u8, 255u8, 0u8, "Green"@),
        default_palette_spec()[5] == (0u8, 255u8, 128u8, "Green-cyan"@),
        default_palette_spec()[6] == (0u8, 255u8, 255u8, "Cyan"@),
        default_palette_spec()[7] == (0u8, 128u8, 255u8, "Sky blue"@),
        default_palette_spec()[8] == (0u8, 0u8, 255u8, "Blue"@),
        default_palette_spec()[9] == (100u8, 12u8, 223u8, "Purple"@),
        default_palette_spec()[10] == (255u8, 0u8, 255u8, "Magenta"@),
        default_palette_spec()[11] == (255u8, 0u8, 128u8, "Pink"@),
{
}

/// The default palette.
pub fn default_palette() -> (p: Vec<PaletteEntry>)
    ensures
        palette_view(p@) == default_palette_spec(),
{
    let mut p: Vec<PaletteEntry> = Vec::new();
    p.push(entry(255, 0, 0, "Red"));
    p.push(entry(255, 128, 0, "Orange"));
    p.push(entry(255, 255, 0, "Yellow"));
    p.push(entry(128, 255, 0, "Yellow-green"));
    p.push(entry(0, 255, 0, "Green"));
    p.push(entry(0, 255, 128, "Green-cyan"));
    p.push(entry(0, 255, 255, "Cyan"));
    p.push(entry(0, 128, 255, "Sky blue"));
    p.push(entry(0, 0, 255, "Blue"));
    p.push(entry(100, 12, 223, "Purple"));
    p.push(entry(255, 0, 255, "Magenta"));
    p.push(entry(255, 0, 128, "Pink"));
    assert(palette_view(p@) =~= default_palette_spec());
    p
}


// ---------------------------------------------------------------------------
// Reading back what was written
// ---------------------------------------------------------------------------

/// A label that the palette file gives back unchanged: not empty, no
/// whitespace at either end, and no line break.
pub open spec fn storable_label(l: Seq<char>) -> bool {
    &&& l.len() > 0
    &&& !is_ws(l[0])
    &&& !is_ws(l.last())
    &&& forall|k: int| 0 <= k < l.len() ==> l[k] != '\n'
}

/// `l` holds no line break.
pub open spec fn no_line_break(l: Seq<char>) -> bool {
    forall|k: int| 0 <= k < l.len() ==> l[k] != '\n'
}

/// A digit string holds none of the characters that structure a line.
proof fn lemma_digits_plain(d: Seq<char>)
    requires
        all_digits(d),
    ensures
        forall|k: int|
            0 <= k < d.len() ==> #[trigger] d[k] != '#' && d[k] != ',' && d[k] != '\n' && !is_ws(
                d[k],
            ),
{
    assert forall|k: int| 0 <= k < d.len() implies #[trigger] d[k] != '#' && d[k] != ','
        && d[k] != '\n' && !is_ws(d[k]) by {
        assert(is_digit(d[k]));
        lemma_digit_not(d[k]);
    }
}

/// The colour part of a written line, `R,G,B `, splits into the three
/// channels, each of which trims to its digits and parses back.
proof fn lemma_rgb_part(r: u8, g: u8, b: u8)
    ensures
        ({
            let dr = decimal(r as nat);
            let dg = decimal(g as nat);
            let db = decimal(b as nat);
            let parts = split(dr + seq![','] + (dg + seq![','] + (db + seq![' '])), ',');
            &&& parts.len() == 3
            &&& parse_channel(trim(parts[0])) == Some(r)
            &&& parse_channel(trim(parts[1])) == Some(g)
            &&& parse_channel(trim(parts[2])) == Some(b)
        }),
{
    let dr = decimal(r as nat);
    let dg = decimal(g as nat);
    let db = decimal(b as nat);
    lemma_decimal_digits(r as nat);
    lemma_decimal_digits(g as nat);
    lemma_decimal_digits(b as nat);
    lemma_digits_plain(dr);
    lemma_digits_plain(dg);
    lemma_digits_plain(db);
    lemma_parse_decimal(r as nat, 255);
    lemma_parse_decimal(g as nat, 255);
    lemma_parse_decimal(b as nat, 255);
    let dbs = db + seq![' '];
    let rest = dg + seq![','] + dbs;
    assert forall|k: int| 0 <= k < dr.len() implies dr[k] != ',' by {}
    assert forall|k: int| 0 <= k < dg.len() implies dg[k] != ',' by {}
    assert forall|k: int| 0 <= k < dbs.len() implies dbs[k] != ',' by {
        if k < db.len() {
            assert(dbs[k] == db[k]);
        }
    }
    lemma_split_concat(dr, ',', rest);
    lemma_split_concat(dg, ',', dbs);
    lemma_split_none(dr, ',');
    lemma_split_none(dg, ',');
    lemma_split_none(dbs, ',');
    let parts = split(dr + seq![','] + rest, ',');
    assert(parts =~= seq![dr, dg, dbs]);
    lemma_trim_unchanged(dr);
    lemma_trim_unchanged(dg);
    lemma_trim_start_at(dbs, 0);
    assert(dbs.skip(0) =~= dbs);
    assert forall|k: int| db.len() <= k < dbs.len() implies is_ws(#[trigger] dbs[k]) by {}
    assert(dbs[db.len() - 1] == db[db.len() - 1]);
    lemma_trim_end_at(dbs, db.len() as int);
    assert(dbs.take(db.len() as int) =~= db);
    assert(trim(dbs) == db);
}

/// The label that reading back a line written with label `l` gives: `l`
/// trimmed, or `(R,G,B)` when nothing is left of it.
pub open spec fn read_back_label(r: u8, g: u8, b: u8, l: Seq<char>) -> Seq<char> {
    if trim(l).len() == 0 {
        rgb_label(r, g, b)
    } else {
        trim(l)
    }
}

/// The line written for any entry reads back as an entry of the same colour,
/// whose label is the written label read back.
pub proof fn lemma_entry_line_parses(e: EntryView)
    ensures
        palette_line_spec(entry_line(e)) == Some(
            (e.0, e.1, e.2, read_back_label(e.0, e.1, e.2, e.3)),
        ),
{
    let dr = decimal(e.0 as nat);
    let dg = decimal(e.1 as nat);
    let db = decimal(e.2 as nat);
    lemma_decimal_digits(e.0 as nat);
    lemma_decimal_digits(e.1 as nat);
    lemma_decimal_digits(e.2 as nat);
    lemma_digits_plain(dr);
    lemma_digits_plain(dg);
    lemma_digits_plain(db);
    let l = e.3;
    let dbs = db + seq![' '];
    let rest = dg + seq![','] + dbs;
    let rgb = dr + seq![','] + rest;
    let line = entry_line(e);
    assert(line =~= rgb + seq!['#', ' '] + l);
    let p = rgb.len() as int;
    // What trimming keeps of the label, and of the line.
    let (a, b) = lemma_trim_bounds_exist(l);
    lemma_trim_between(l, a, b);
    let big_b = if a < b {
        p + 2 + b
    } else {
        p + 1
    };
    assert forall|k: int| big_b <= k < line.len() implies is_ws(#[trigger] line[k]) by {
        if k == p + 1 {
        } else {
            assert(line[k] == l[k - p - 2]);
            if a == b && k - p - 2 < a {
            }
        }
    }
    assert(line[0] == dr[0]);
    if a < b {
        assert(line[big_b - 1] == l[b - 1]);
    } else {
        assert(line[big_b - 1] == '#');
    }
    assert(trim_bounds(line, 0, big_b));
    lemma_trim_between(line, 0, big_b);
    let t = trim(line);
    assert(t == line.subrange(0, big_b));
    assert(t[0] != '#');
    // The first `#` ends the colour part.
    assert forall|k: int| 0 <= k < p implies rgb[k] != '#' by {
        if k < dr.len() {
            assert(rgb[k] == dr[k]);
        } else if k == dr.len() {
        } else if k < dr.len() + 1 + dg.len() {
            assert(rgb[k] == dg[k - dr.len() - 1]);
        } else if k == dr.len() + 1 + dg.len() {
        } else if k < p - 1 {
            assert(rgb[k] == db[k - dr.len() - 2 - dg.len()]);
        } else {
        }
    }
    assert(first_at(t, '#', p)) by {
        assert forall|k: int| 0 <= k < p implies t[k] != '#' by {
            assert(t[k] == rgb[k]);
        }
    }
    lemma_find_char_at(t, '#', p);
    assert(t.take(p) =~= rgb);
    // The label part.
    let after = t.skip(p + 1);
    if a < b {
        assert(after =~= seq![' '] + l.subrange(0, b));
        assert forall|k: int| 0 <= k < 1 + a implies is_ws(#[trigger] after[k]) by {
            if k > 0 {
                assert(after[k] == l[k - 1]);
            }
        }
        assert(after[1 + a] == l[a]);
        assert(after[b] == l[b - 1]);
        assert(trim_bounds(after, 1 + a, 1 + b));
        lemma_trim_between(after, 1 + a, 1 + b);
        assert(after.subrange(1 + a, 1 + b) =~= l.subrange(a, b));
    } else {
        assert(after =~= Seq::<char>::empty());
        assert(trim_bounds(after, 0, 0));
        lemma_trim_between(after, 0, 0);
        assert(after.subrange(0, 0) =~= Seq::<char>::empty());
    }
    lemma_rgb_part(e.0, e.1, e.2);
}


/// A line of three comma-separated channel values and nothing else holds that
/// colour, labelled `(R,G,B)`.
pub proof fn lemma_plain_line_parses(r: u8, g: u8, b: u8)
    ensures
        palette_line_spec(
            decimal(r as nat) + seq![','] + decimal(g as nat) + seq![','] + decimal(b as nat),
        ) == Some(
            (
                r,
                g,
                b,
                seq!['('] + decimal(r as nat) + seq![','] + decimal(g as nat) + seq![','] + decimal(
                    b as nat,
                ) + seq![')'],
            ),
        ),
{
    let dr = decimal(r as nat);
    let dg = decimal(g as nat);
    let db = decimal(b as nat);
    lemma_decimal_digits(r as nat);
    lemma_decimal_digits(g as nat);
    lemma_decimal_digits(b as nat);
    lemma_digits_plain(dr);
    lemma_digits_plain(dg);
    lemma_digits_plain(db);
    lemma_parse_decimal(r as nat, 255);
    lemma_parse_decimal(g as nat, 255);
    lemma_parse_decimal(b as nat, 255);
    let rest = dg + seq![','] + db;
    let line = dr + seq![','] + dg + seq![','] + db;
    assert(line =~= dr + seq![','] + rest);
    assert(line[0] == dr[0]);
    assert(line.last() == db.last());
    lemma_trim_unchanged(line);
    assert forall|k: int| 0 <= k < line.len() implies line[k] != '#' by {
        if k < dr.len() {
            assert(line[k] == dr[k]);
        } else if k == dr.len() {
        } else if k < dr.len() + 1 + dg.len() {
            assert(line[k] == dg[k - dr.len() - 1]);
        } else if k == dr.len() + 1 + dg.len() {
        } else {
            assert(line[k] == db[k - dr.len() - 2 - dg.len()]);
        }
    }
    lemma_find_char_none(line, '#');
    assert forall|k: int| 0 <= k < dr.len() implies dr[k] != ',' by {}
    assert forall|k: int| 0 <= k < dg.len() implies dg[k] != ',' by {}
    assert forall|k: int| 0 <= k < db.len() implies db[k] != ',' by {}
    lemma_split_concat(dr, ',', rest);
    lemma_split_concat(dg, ',', db);
    lemma_split_none(dr, ',');
    lemma_split_none(dg, ',');
    lemma_split_none(db, ',');
    assert(split(line, ',') =~= seq![dr, dg, db]);
    lemma_trim_unchanged(dr);
    lemma_trim_unchanged(dg);
    lemma_trim_unchanged(db);
    assert(rgb_label(r, g, b) =~= seq!['('] + dr + seq![','] + dg + seq![','] + db + seq![')']);
}

/// A label that is its own non-empty trim reads back unchanged.
pub proof fn lemma_trimmed_label_round_trip(e: EntryView)
    requires
        e.3.len() > 0,
        trim(e.3) == e.3,
    ensures
        palette_line_spec(entry_line(e)) == Some(e),
{
    lemma_entry_line_parses(e);
}

/// The entries' lines contain no line break.
proof fn lemma_entry_line_plain(e: EntryView)
    requires
        no_line_break(e.3),
    ensures
        forall|k: int| 0 <= k < entry_line(e).len() ==> entry_line(e)[k] != '\n',
        entry_line(e).len() > 0,
        storable_label(e.3) ==> !is_ws(entry_line(e).last()),
        e.3.len() == 0 ==> entry_line(e).last() == ' ',
        e.3.len() > 0 ==> entry_line(e).last() == e.3.last(),
        e.3.len() > 0 ==> entry_line(e).drop_last() == entry_line((e.0, e.1, e.2, e.3.drop_last())),
{
    let dr = decimal(e.0 as nat);
    let dg = decimal(e.1 as nat);
    let db = decimal(e.2 as nat);
    lemma_decimal_digits(e.0 as nat);
    lemma_decimal_digits(e.1 as nat);
    lemma_decimal_digits(e.2 as nat);
    lemma_digits_plain(dr);
    lemma_digits_plain(dg);
    lemma_digits_plain(db);
    let line = entry_line(e);
    let a = dr.len();
    let b = a + 1 + dg.len();
    let c = b + 1 + db.len();
    assert forall|k: int| 0 <= k < line.len() implies line[k] != '\n' by {
        if k < a {
            assert(line[k] == dr[k]);
        } else if k == a {
        } else if k < b {
            assert(line[k] == dg[k - a - 1]);
        } else if k == b {
        } else if k < c {
            assert(line[k] == db[k - b - 1]);
        } else if k < c + 3 {
        } else {
            assert(line[k] == e.3[k - c - 3]);
        }
    }
    if e.3.len() > 0 {
        assert(line.last() == e.3.last());
        assert(line.drop_last() =~= entry_line((e.0, e.1, e.2, e.3.drop_last())));
    }
}

/// Splitting the entries' lines, followed by `tail`, at line breaks gives the
/// lines and then `tail`.
proof fn lemma_split_entry_lines(es: Seq<EntryView>, tail: Seq<char>)
    requires
        forall|i: int| 0 <= i < es.len() ==> no_line_break(#[trigger] es[i].3),
        forall|k: int| 0 <= k < tail.len() ==> tail[k] != '\n',
    ensures
        split(entry_lines(es) + tail, '\n') == es.map_values(|e: EntryView| entry_line(e)) + seq![
            tail,
        ],
    decreases es.len(),
{
    if es.len() == 0 {
        assert(entry_lines(es) + tail =~= tail);
        lemma_split_none(tail, '\n');
        assert(es.map_values(|e: EntryView| entry_line(e)) + seq![tail] =~= seq![tail]);
    } else {
        let init = es.drop_last();
        let last = es.last();
        assert(no_line_break(es[es.len() - 1].3));
        lemma_entry_line_plain(last);
        assert(forall|i: int| 0 <= i < init.len() ==> #[trigger] init[i] == es[i]);
        lemma_split_entry_lines(init, entry_line(last));
        assert(entry_lines(es) + tail =~= (entry_lines(init) + entry_line(last)) + seq!['\n']
            + tail);
        lemma_split_concat(entry_lines(init) + entry_line(last), '\n', tail);
        lemma_split_none(tail, '\n');
        assert(es.map_values(|e: EntryView| entry_line(e)) =~= init.map_values(
            |e: EntryView| entry_line(e),
        ).push(entry_line(last)));
        assert(split(entry_lines(es) + tail, '\n') =~= es.map_values(
            |e: EntryView| entry_line(e),
        ) + seq![tail]);
    }
}

/// The entries' lines read back as the entries.
proof fn lemma_parsed_entry_lines(es: Seq<EntryView>)
    requires
        forall|i: int| 0 <= i < es.len() ==> storable_label(#[trigger] es[i].3),
    ensures
        parsed_entries(es.map_values(|e: EntryView| entry_line(e))) == es,
    decreases es.len(),
{
    let ls = es.map_values(|e: EntryView| entry_line(e));
    if es.len() == 0 {
        assert(ls.len() == 0);
        assert(parsed_entries(ls) =~= es);
    } else {
        let init = es.drop_last();
        assert(forall|i: int| 0 <= i < init.len() ==> #[trigger] init[i] == es[i]);
        lemma_parsed_entry_lines(init);
        assert(ls.drop_last() =~= init.map_values(|e: EntryView| entry_line(e)));
        assert(storable_label(es[es.len() - 1].3));
        lemma_trim_unchanged(es.last().3);
        lemma_entry_line_parses(es.last());
        assert(ls.last() == entry_line(es.last()));
        assert(parsed_entries(ls) =~= es);
    }
}

/// What a palette file written for a palette gives back when it is read: the
/// same palette, for every non-empty palette whose labels are storable.
pub proof fn lemma_palette_file_round_trip(es: Seq<EntryView>)
    requires
        es.len() > 0,
        forall|i: int| 0 <= i < es.len() ==> storable_label(#[trigger] es[i].3),
    ensures
        palette_from_file_spec(palette_file_spec(es)) == Some(es),
{
    let s = palette_file_spec(es);
    let ls = es.map_values(|e: EntryView| entry_line(e));
    assert(s == entry_lines(es));
    assert forall|i: int| 0 <= i < es.len() implies no_line_break(#[trigger] es[i].3) by {
        assert(storable_label(es[i].3));
    }
    lemma_split_entry_lines(es, Seq::<char>::empty());
    assert(entry_lines(es) + Seq::<char>::empty() =~= s);
    let parts = split(s, '\n');
    assert(parts == ls + seq![Seq::<char>::empty()]);
    assert(s.len() > 0 && s.last() == '\n') by {
        assert(s =~= entry_lines(es.drop_last()) + entry_line(es.last()) + seq!['\n']);
    }
    assert forall|i: int| 0 <= i < es.len() implies strip_cr(#[trigger] ls[i]) == ls[i] by {
        assert(storable_label(es[i].3));
        assert(no_line_break(es[i].3));
        lemma_entry_line_plain(es[i]);
    }
    assert(lines(s) =~= ls);
    lemma_parsed_entry_lines(es);
}

/// Writing the default palette and reading it back gives the default palette.
pub proof fn lemma_default_palette_round_trip()
    ensures
        palette_from_file_spec(palette_file_spec(default_palette_spec())) == Some(
            default_palette_spec(),
        ),
{
    let es = default_palette_spec();
    reveal_strlit("Red");
    reveal_strlit("Orange");
    reveal_strlit("Yellow");
    reveal_strlit("Yellow-green");
    reveal_strlit("Green");
    reveal_strlit("Green-cyan");
    reveal_strlit("Cyan");
    reveal_strlit("Sky blue");
    reveal_strlit("Blue");
    reveal_strlit("Purple");
    reveal_strlit("Magenta");
    reveal_strlit("Pink");
    assert forall|i: int| 0 <= i < es.len() implies storable_label(#[trigger] es[i].3) by {}
    lemma_palette_file_round_trip(es);
}


/// The label `(R,G,B)` holds no line break.
pub proof fn lemma_rgb_label_plain(r: u8, g: u8, b: u8)
    ensures
        no_line_break(rgb_label(r, g, b)),
{
    let dr = decimal(r as nat);
    let dg = decimal(g as nat);
    let db = decimal(b as nat);
    lemma_decimal_digits(r as nat);
    lemma_decimal_digits(g as nat);
    lemma_decimal_digits(b as nat);
    lemma_digits_plain(dr);
    lemma_digits_plain(dg);
    lemma_digits_plain(db);
    let l = rgb_label(r, g, b);
    let a = 1 + dr.len();
    let c = a + 1 + dg.len();
    let d = c + 1 + db.len();
    assert forall|k: int| 0 <= k < l.len() implies l[k] != '\n' by {
        if k == 0 {
        } else if k < a {
            assert(l[k] == dr[k - 1]);
        } else if k == a {
        } else if k < c {
            assert(l[k] == dg[k - a - 1]);
        } else if k == c {
        } else if k < d {
            assert(l[k] == db[k - c - 1]);
        } else {
        }
    }
}

/// Writing a palette with one more entry appended, whose label holds no line
/// break, and reading the file back gives the palette followed by an entry of
/// the appended colour.
pub proof fn lemma_reload_appended(es: Seq<EntryView>, e: EntryView)
    requires
        forall|i: int| 0 <= i < es.len() ==> storable_label(#[trigger] es[i].3),
        no_line_break(e.3),
    ensures
        palette_from_file_spec(palette_file_spec(es.push(e))) matches Some(q) && q.len() == es.len()
            + 1 && q.drop_last() == es && q.last().0 == e.0 && q.last().1 == e.1 && q.last().2
            == e.2,
{
    let all = es.push(e);
    let s = palette_file_spec(all);
    let ls = all.map_values(|x: EntryView| entry_line(x));
    assert(s == entry_lines(all));
    assert forall|i: int| 0 <= i < all.len() implies no_line_break(#[trigger] all[i].3) by {
        if i < es.len() {
            assert(all[i] == es[i]);
            assert(storable_label(es[i].3));
        }
    }
    lemma_split_entry_lines(all, Seq::<char>::empty());
    assert(entry_lines(all) + Seq::<char>::empty() =~= s);
    assert(all.drop_last() =~= es);
    assert(all.last() == e);
    assert(s =~= entry_lines(es) + entry_line(e) + seq!['\n']);
    let lv = lines(s);
    assert(lv.len() == all.len());
    let es_lines = es.map_values(|x: EntryView| entry_line(x));
    assert forall|i: int| 0 <= i < es.len() implies lv[i] == #[trigger] es_lines[i] by {
        assert(all[i] == es[i]);
        assert(storable_label(es[i].3));
        lemma_entry_line_plain(es[i]);
    }
    assert(lv.drop_last() =~= es_lines);
    lemma_parsed_entry_lines(es);
    let last = lv.last();
    assert(last == strip_cr(entry_line(e)));
    lemma_entry_line_plain(e);
    lemma_entry_line_parses(e);
    if e.3.len() > 0 && e.3.last() == '\r' {
        let e2 = (e.0, e.1, e.2, e.3.drop_last());
        assert(last == entry_line(e2));
        lemma_entry_line_parses(e2);
    } else {
        assert(last == entry_line(e));
    }
    assert(palette_line_spec(last) is Some);
    let x = palette_line_spec(last)->Some_0;
    assert(parsed_entries(lv) == parsed_entries(lv.drop_last()).push(x));
    assert(parsed_entries(lv).drop_last() =~= es);
}

// ---------------------------------------------------------------------------
// Snapping
// ---------------------------------------------------------------------------


/// Snapping gives the colour of a palette entry whose squared Euclidean
/// distance to the colour, each channel weighted alike, is no larger than any
/// other entry's, and strictly smaller than that of every entry before it; an
/// empty palette leaves the colour as it is.
pub proof fn lemma_snap_is_nearest(r: u8, g: u8, b: u8, p: Seq<EntryView>)
    ensures
        p.len() == 0 ==> snap_spec(r, g, b, p) == (r, g, b),
        p.len() > 0 ==> exists|i: int|
            #![trigger p[i]]
            0 <= i < p.len() && snap_spec(r, g, b, p) == (p[i].0, p[i].1, p[i].2) && (forall|j: int|
                0 <= j < p.len() ==> (r - p[i].0) * (r - p[i].0) + (g - p[i].1) * (g - p[i].1) + (b
                    - p[i].2) * (b - p[i].2) <= (r - (#[trigger] p[j]).0) * (r - p[j].0) + (g
                    - p[j].1) * (g - p[j].1) + (b - p[j].2) * (b - p[j].2)) && (forall|j: int|
                0 <= j < i ==> (r - p[i].0) * (r - p[i].0) + (g - p[i].1) * (g - p[i].1) + (b
                    - p[i].2) * (b - p[i].2) < (r - (#[trigger] p[j]).0) * (r - p[j].0) + (g
                    - p[j].1) * (g - p[j].1) + (b - p[j].2) * (b - p[j].2)),
{
    if p.len() > 0 {
        lemma_first_nearest_exists(r, g, b, p);
        let i = choose|i: int| first_nearest(r, g, b, p, i);
        assert(first_nearest(r, g, b, p, i));
        assert(snap_spec(r, g, b, p) == (p[i].0, p[i].1, p[i].2));
    }
}

/// Every non-empty palette has a first nearest entry for every colour.
pub proof fn lemma_first_nearest_exists(r: u8, g: u8, b: u8, p: Seq<EntryView>)
    requires
        p.len() > 0,
    ensures
        exists|i: int| first_nearest(r, g, b, p, i),
    decreases p.len(),
{
    if p.len() == 1 {
        assert(first_nearest(r, g, b, p, 0));
    } else {
        let init = p.drop_last();
        lemma_first_nearest_exists(r, g, b, init);
        let i = choose|i: int| first_nearest(r, g, b, init, i);
        assert(forall|j: int| 0 <= j < init.len() ==> #[trigger] init[j] == p[j]);
        let last = p.len() - 1;
        assert(first_nearest(r, g, b, init, i));
        if distance2(r, g, b, p[last]) < distance2(r, g, b, p[i]) {
            assert forall|j: int| 0 <= j < last implies distance2(r, g, b, #[trigger] p[j])
                > distance2(r, g, b, p[last]) by {
                assert(p[j] == init[j]);
                assert(distance2(r, g, b, init[i]) <= distance2(r, g, b, init[j]));
            }
            assert(first_nearest(r, g, b, p, last));
        } else {
            assert forall|j: int| 0 <= j < p.len() implies distance2(r, g, b, p[i]) <= distance2(
                r,
                g,
                b,
                #[trigger] p[j],
            ) by {
                if j < last {
                    assert(p[j] == init[j]);
                    assert(distance2(r, g, b, init[i]) <= distance2(r, g, b, init[j]));
                }
            }
            assert forall|j: int| 0 <= j < i implies distance2(r, g, b, #[trigger] p[j])
                > distance2(r, g, b, p[i]) by {
                assert(p[j] == init[j]);
                assert(distance2(r, g, b, init[j]) > distance2(r, g, b, init[i]));
            }
            assert(first_nearest(r, g, b, p, i));
        }
    }
}

proof fn lemma_distance_zero(r: u8, g: u8, b: u8, e: EntryView)
    requires
        distance2(r, g, b, e) <= 0,
    ensures
        r == e.0 && g == e.1 && b == e.2,
{
    let x = r - e.0;
    let y = g - e.1;
    let z = b - e.2;
    assert(x * x >= 0 && y * y >= 0 && z * z >= 0) by (nonlinear_arith);
    assert(x * x + y * y + z * z <= 0 ==> x == 0 && y == 0 && z == 0) by (nonlinear_arith);
}

/// Snapping a colour that snapping gave leaves it as it is.
pub proof fn lemma_snap_idempotent(r: u8, g: u8, b: u8, p: Seq<EntryView>)
    ensures
        snap_spec(snap_spec(r, g, b, p).0, snap_spec(r, g, b, p).1, snap_spec(r, g, b, p).2, p)
            == snap_spec(r, g, b, p),
{
    if p.len() > 0 {
        lemma_first_nearest_exists(r, g, b, p);
        let i = choose|i: int| first_nearest(r, g, b, p, i);
        let (x, y, z) = (p[i].0, p[i].1, p[i].2);
        assert(distance2(x, y, z, p[i]) == 0);
        lemma_first_nearest_exists(x, y, z, p);
        let k = choose|k: int| first_nearest(x, y, z, p, k);
        assert(distance2(x, y, z, p[k]) <= distance2(x, y, z, p[i]));
        lemma_distance_zero(x, y, z, p[k]);
    }
}

/// A palette colour snaps to itself.
pub proof fn lemma_snap_palette_colour(p: Seq<EntryView>, i: int)
    requires
        0 <= i < p.len(),
    ensures
        snap_spec(p[i].0, p[i].1, p[i].2, p) == (p[i].0, p[i].1, p[i].2),
{
    let (x, y, z) = (p[i].0, p[i].1, p[i].2);
    assert(distance2(x, y, z, p[i]) == 0);
    lemma_first_nearest_exists(x, y, z, p);
    let k = choose|k: int| first_nearest(x, y, z, p, k);
    assert(distance2(x, y, z, p[k]) <= distance2(x, y, z, p[i]));
    lemma_distance_zero(x, y, z, p[k]);
}

} // verus!
