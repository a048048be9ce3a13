//! The dominant screen colour as ImageMagick's `txt:` output reports it:
//! `srgb(R,G,B)` with integer channels (ImageMagick 6) or percentages
//! (ImageMagick 7).
use vstd::prelude::*;
use crate::kb_rgb_effects::ambient::parse_channel;
use crate::text::{
    chars_of, find_char, find_in, find_text, find_text_in, parse_range, split, split_ranges,
    string_of, trim, trim_range, decimal, is_digit, all_digits, is_ws, occurs_at,
    first_occurrence, first_at, lemma_decimal_digits, lemma_parse_decimal, lemma_find_char_at,
    lemma_split_concat, lemma_split_none, lemma_trim_unchanged, lemma_digit_not,
};

verus! {

/// The channel fields of the first `srgb(...)` in `out`: the text between the
/// first `srgb(` and the first `)` after it, split at commas, each field
/// trimmed. Nothing when either is missing.
pub open spec fn srgb_fields(out: Seq<char>) -> Option<Seq<Seq<char>>> {
    match find_text(out, "srgb("@) {
        None => None,
        Some(start) => match find_char(out.skip(start), ')') {
            None => None,
            Some(end) => Some(
                split(out.subrange(start + "srgb("@.len(), start + end), ',').map_values(
                    |f: Seq<char>| trim(f),
                ),
            ),
        },
    }
}

/// A field that ends with `%` holds a percentage.
pub open spec fn is_percent(f: Seq<char>) -> bool {
    f.len() > 0 && f.last() == '%'
}

/// The percentage fields, in order, without their `%`.
pub open spec fn percent_texts(fs: Seq<Seq<char>>) -> Seq<Seq<char>>
    decreases fs.len(),
{
    if fs.len() == 0 {
        Seq::<Seq<char>>::empty()
    } else if is_percent(fs.last()) {
        percent_texts(fs.drop_last()).push(fs.last().drop_last())
    } else {
        percent_texts(fs.drop_last())
    }
}

/// The value of each field: a percentage field takes the converted value that
/// `percents` holds for it (the `k`-th percentage field the `k`-th value,
/// nothing when there is none); any other field is parsed as a channel.
pub open spec fn channel_values(fs: Seq<Seq<char>>, percents: Seq<Option<u8>>) -> Seq<
    Option<u8>,
>
    decreases fs.len(),
{
    if fs.len() == 0 {
        Seq::<Option<u8>>::empty()
    } else {
        let init = fs.drop_last();
        let k = percent_texts(init).len();
        let v = if is_percent(fs.last()) {
            if k < percents.len() {
                percents[k as int]
            } else {
                None
            }
        } else {
            parse_channel(fs.last())
        };
        channel_values(init, percents).push(v)
    }
}

/// The values that are present, in order.
pub open spec fn present(vs: Seq<Option<u8>>) -> Seq<u8>
    decreases vs.len(),
{
    if vs.len() == 0 {
        Seq::<u8>::empty()
    } else {
        match vs.last() {
            Some(v) => present(vs.drop_last()).push(v),
            None => present(vs.drop_last()),
        }
    }
}

/// The colour the values give: exactly three present values, in order.
pub open spec fn color_from_values(vs: Seq<Option<u8>>) -> Option<(u8, u8, u8)> {
    let p = present(vs);
    if p.len() == 3 {
        Some((p[0], p[1], p[2]))
    } else {
        None
    }
}

/// The colour that `out` reports, given the converted percentage values.
pub open spec fn parse_color_spec(out: Seq<char>, percents: Seq<Option<u8>>) -> Option<
    (u8, u8, u8),
> {
    match srgb_fields(out) {
        None => None,
        Some(fs) => color_from_values(channel_values(fs, percents)),
    }
}

/// The bounds, within `v`, of the trimmed channel fields of the first
/// `srgb(...)`.
fn field_ranges(v: &Vec<char>) -> (r: Option<Vec<(usize, usize)>>)
    ensures
        match r {
            None => srgb_fields(v@) is None,
            Some(rs) => srgb_fields(v@) matches Some(fs) && rs@.len() == fs.len() && forall|j: int|
                0 <= j < rs@.len() ==> (#[trigger] rs@[j]).0 <= rs@[j].1 <= v@.len() && v@.subrange(
                    rs@[j].0 as int,
                    rs@[j].1 as int,
                ) == fs[j],
        },
{
    let pat = chars_of("srgb(");
    let start = match find_text_in(v, &pat) {
        Some(s) => s,
        None => {
            return None;
        },
    };
    proof {
        reveal_strlit("srgb(");
    }
    assert(v@.subrange(start as int, start + 5) == "srgb("@);
    let rel_end = match find_in(v, start, v.len(), ')') {
        Some(e) => e,
        None => {
            assert(v@.subrange(start as int, v@.len() as int) =~= v@.skip(start as int));
            return None;
        },
    };
    let ghost tail = v@.skip(start as int);
    assert(v@.subrange(start as int, v@.len() as int) =~= tail);
    assert(rel_end >= start + 5) by {
        if rel_end < start + 5 {
            assert(v@[rel_end as int] == "srgb("@[rel_end - start]);
        }
    }
    let parts = split_ranges(v, start + 5, rel_end, ',');
    let ghost fs = split(v@.subrange(start + 5, rel_end as int), ',').map_values(
        |f: Seq<char>| trim(f),
    );
    let mut out: Vec<(usize, usize)> = Vec::new();
    let n = parts.len();
    let mut j: usize = 0;
    while j < n
        invariant
            n == parts@.len(),
            n == fs.len(),
            fs == split(v@.subrange(start + 5, rel_end as int), ',').map_values(
                |f: Seq<char>| trim(f),
            ),
            forall|k: int|
                0 <= k < n ==> (#[trigger] parts@[k]).0 <= parts@[k].1 <= v@.len() && v@.subrange(
                    parts@[k].0 as int,
                    parts@[k].1 as int,
                ) == split(v@.subrange(start + 5, rel_end as int), ',')[k],
            j <= n,
            out@.len() == j,
            forall|k: int|
                0 <= k < j ==> (#[trigger] out@[k]).0 <= out@[k].1 <= v@.len() && v@.subrange(
                    out@[k].0 as int,
                    out@[k].1 as int,
                ) == fs[k],
        decreases n - j,
    {
        let (a, b) = parts[j];
        let t = trim_range(v, a, b);
        out.push(t);
        j = j + 1;
    }
    Some(out)
}

/// The percentage fields of the first `srgb(...)` in `output`, in order and
/// without their `%`, for the caller to convert.
pub fn percent_fields(output: &str) -> (r: Vec<String>)
    ensures
        r@.map_values(|s: String| s@) == match srgb_fields(output@) {
            Some(fs) => percent_texts(fs),
            None => Seq::<Seq<char>>::empty(),
        },
{
    let v = chars_of(output);
    let mut r: Vec<String> = Vec::new();
    let rs = match field_ranges(&v) {
        Some(rs) => rs,
        None => {
            assert(r@.map_values(|s: String| s@) =~= Seq::<Seq<char>>::empty());
            return r;
        },
    };
    let ghost fs = srgb_fields(output@)->Some_0;
    let n = rs.len();
    let mut j: usize = 0;
    while j < n
        invariant
            v@ == output@,
            srgb_fields(output@) == Some(fs),
            n == rs@.len(),
            n == fs.len(),
            forall|k: int|
                0 <= k < n ==> (#[trigger] rs@[k]).0 <= rs@[k].1 <= v@.len() && v@.subrange(
                    rs@[k].0 as int,
                    rs@[k].1 as int,
                ) == fs[k],
            j <= n,
            r@.map_values(|s: String| s@) == percent_texts(fs.take(j as int)),
        decreases n - j,
    {
        let (a, b) = rs[j];
        let ghost f = fs[j as int];
        assert(fs.take(j + 1).drop_last() =~= fs.take(j as int));
        assert(fs.take(j + 1).last() == f);
        if a < b && v[b - 1] == '%' {
            assert(f.last() == v@[b - 1]);
            let s = string_of(&v, a, b - 1);
            assert(s@ =~= f.drop_last());
            r.push(s);
            assert(r@.map_values(|s: String| s@) =~= percent_texts(fs.take(j + 1)));
        } else {
            proof {
                if a < b {
                    assert(f.last() == v@[b - 1]);
                }
            }
        }
        j = j + 1;
    }
    assert(fs.take(n as int) =~= fs);
    r
}

/// Parses the colour that `output` reports. The percentage fields take, in
/// order, the values in `percent_values` (their conversion to a channel, made
/// by the caller); integer fields are parsed here. The colour is present when
/// exactly three fields give a value.
pub fn parse_color(output: &str, percent_values: &Vec<Option<u8>>) -> (r: Option<(u8, u8, u8)>)
    ensures
        r == parse_color_spec(output@, percent_values@),
{
    let v = chars_of(output);
    let rs = match field_ranges(&v) {
        Some(rs) => rs,
        None => {
            return None;
        },
    };
    let ghost fs = srgb_fields(output@)->Some_0;
    let ghost pv = percent_values@;
    let mut kept: Vec<u8> = Vec::new();
    let mut k: usize = 0;
    let n = rs.len();
    let mut j: usize = 0;
    while j < n
        invariant
            v@ == output@,
            srgb_fields(output@) == Some(fs),
            pv == percent_values@,
            n == rs@.len(),
            n == fs.len(),
            forall|m: int|
                0 <= m < n ==> (#[trigger] rs@[m]).0 <= rs@[m].1 <= v@.len() && v@.subrange(
                    rs@[m].0 as int,
                    rs@[m].1 as int,
                ) == fs[m],
            j <= n,
            k == percent_texts(fs.take(j as int)).len(),
            k <= j,
            kept@ == present(channel_values(fs.take(j as int), pv)),
        decreases n - j,
    {
        let (a, b) = rs[j];
        let ghost f = fs[j as int];
        let ghost pre = fs.take(j as int);
        assert(fs.take(j + 1).drop_last() =~= pre);
        assert(fs.take(j + 1).last() == f);
        let value: Option<u8>;
        if a < b && v[b - 1] == '%' {
            assert(f.last() == v@[b - 1]);
            value = if k < percent_values.len() {
                percent_values[k]
            } else {
                None
            };
            k = k + 1;
        } else {
            proof {
                if a < b {
                    assert(f.last() == v@[b - 1]);
                }
            }
            value = match parse_range(&v, a, b, 255) {
                Some(x) => Some(x as u8),
                None => None,
            };
        }
        let ghost cv = channel_values(fs.take(j + 1), pv);
        assert(cv == channel_values(pre, pv).push(value));
        assert(cv.drop_last() =~= channel_values(pre, pv));
        assert(cv.last() == value);
        match value {
            Some(x) => {
                kept.push(x);
            },
            None => {
            },
        }
        j = j + 1;
    }
    assert(fs.take(n as int) =~= fs);
    if kept.len() == 3 {
        Some((kept[0], kept[1], kept[2]))
    } else {
        None
    }
}


/// Digits are none of `(`, `)`, `,`, `%` and whitespace.
proof fn lemma_digits_not_structure(d: Seq<char>)
    requires
        all_digits(d),
    ensures
        forall|k: int|
            0 <= k < d.len() ==> #[trigger] d[k] != ')' && d[k] != ',' && d[k] != '%' && !is_ws(
                d[k],
            ),
{
    assert forall|k: int| 0 <= k < d.len() implies #[trigger] d[k] != ')' && d[k] != ','
        && d[k] != '%' && !is_ws(d[k]) by {
        assert(is_digit(d[k]));
        lemma_digit_not(d[k]);
    }
}

/// ImageMagick's integer form `srgb(R,G,B)` reports the colour `(R, G, B)`,
/// whatever percentage values are given (there are no percentage fields).
pub proof fn lemma_integer_srgb(r: u8, g: u8, b: u8, percents: Seq<Option<u8>>)
    ensures
        parse_color_spec(
            "srgb("@ + decimal(r as nat) + seq![','] + decimal(g as nat) + seq![','] + decimal(
                b as nat,
            ) + seq![')'],
            percents,
        ) == Some((r, g, b)),
{
    reveal_strlit("srgb(");
    let pat = "srgb("@;
    let dr = decimal(r as nat);
    let dg = decimal(g as nat);
    let db = decimal(b as nat);
    lemma_decimal_digits(r as nat);
    lemma_decimal_digits(g as nat);
    lemma_decimal_digits(b as nat);
    lemma_digits_not_structure(dr);
    lemma_digits_not_structure(dg);
    lemma_digits_not_structure(db);
    lemma_parse_decimal(r as nat, 255);
    lemma_parse_decimal(g as nat, 255);
    lemma_parse_decimal(b as nat, 255);
    let body = dr + seq![','] + dg + seq![','] + db;
    let out = pat + dr + seq![','] + dg + seq![','] + db + seq![')'];
    assert(out =~= pat + body + seq![')']);
    // `srgb(` stands at the start.
    assert(out.subrange(0, 5) =~= pat);
    assert(first_occurrence(out, pat, 0));
    let j = choose|j: int| first_occurrence(out, pat, j);
    assert(first_occurrence(out, pat, j));
    if j > 0 {
        assert(!occurs_at(out, pat, 0));
    }
    assert(find_text(out, pat) == Some(0int));
    // The first `)` closes it.
    let close: int = 5 + body.len() as int;
    assert(out.skip(0) =~= out);
    assert forall|k: int| 0 <= k < close implies out[k] != ')' by {
        if k < 5 {
            assert(out[k] == pat[k]);
        } else if k < 5 + dr.len() {
            assert(out[k] == dr[k - 5]);
        } else if k == 5 + dr.len() {
        } else if k < 6 + dr.len() + dg.len() {
            assert(out[k] == dg[k - 6 - dr.len()]);
        } else if k == 6 + dr.len() + dg.len() {
        } else {
            assert(out[k] == db[k - 7 - dr.len() - dg.len()]);
        }
    }
    assert(first_at(out, ')', close));
    lemma_find_char_at(out, ')', close);
    assert(out.subrange(5, close) =~= body);
    // The fields.
    assert forall|k: int| 0 <= k < dr.len() implies dr[k] != ',' by {}
    assert forall|k: int| 0 <= k < dg.len() implies dg[k] != ',' by {}
    assert forall|k: int| 0 <= k < db.len() implies db[k] != ',' by {}
    let rest = dg + seq![','] + db;
    assert(body =~= dr + seq![','] + rest);
    lemma_split_concat(dr, ',', rest);
    lemma_split_concat(dg, ',', db);
    lemma_split_none(dr, ',');
    lemma_split_none(dg, ',');
    lemma_split_none(db, ',');
    assert(split(body, ',') =~= seq![dr, dg, db]);
    lemma_trim_unchanged(dr);
    lemma_trim_unchanged(dg);
    lemma_trim_unchanged(db);
    let fs = seq![dr, dg, db];
    assert(split(body, ',').map_values(|f: Seq<char>| trim(f)) =~= fs);
    assert(srgb_fields(out) == Some(fs));
    // No field is a percentage; each parses.
    assert(!is_percent(dr) && !is_percent(dg) && !is_percent(db)) by {
        assert(dr.last() == dr[dr.len() - 1]);
        assert(dg.last() == dg[dg.len() - 1]);
        assert(db.last() == db[db.len() - 1]);
    }
    let f1 = seq![dr];
    let f2 = seq![dr, dg];
    assert(f1.drop_last() =~= Seq::<Seq<char>>::empty());
    assert(f2.drop_last() =~= f1);
    assert(fs.drop_last() =~= f2);
    let c1 = channel_values(f1, percents);
    let c2 = channel_values(f2, percents);
    let c3 = channel_values(fs, percents);
    assert(parse_channel(dr) == Some(r));
    assert(parse_channel(dg) == Some(g));
    assert(parse_channel(db) == Some(b));
    assert(channel_values(Seq::<Seq<char>>::empty(), percents) == Seq::<Option<u8>>::empty());
    assert(f1.last() == dr);
    assert(f2.last() == dg);
    assert(fs.last() == db);
    assert(c1 =~= seq![Some(r)]);
    assert(c2 =~= seq![Some(r), Some(g)]);
    assert(c3 =~= seq![Some(r), Some(g), Some(b)]);
    assert(c1.drop_last() =~= Seq::<Option<u8>>::empty());
    assert(c2.drop_last() =~= c1);
    assert(c3.drop_last() =~= c2);
    assert(present(Seq::<Option<u8>>::empty()) == Seq::<u8>::empty());
    assert(c1.last() == Some(r));
    assert(c2.last() == Some(g));
    assert(c3.last() == Some(b));
    assert(present(c1) =~= seq![r]);
    assert(present(c2) =~= seq![r, g]);
    assert(present(c3) =~= seq![r, g, b]);
}

} // verus!
