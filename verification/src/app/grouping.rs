//! Building the entry tree from file names: years newest first, their months
//! newest first, and the days of each month newest first.
use vstd::prelude::*;
use crate::text::{
    chars_in_bytes, chars_in_first_bytes, chars_of, int_padded, format_int_padded,
    lemma_chars_in_bytes_bound, prefix_string, seq_lt, str_lt,
};
use crate::dates::{chrono_parse_date, chrono_parse_ymd, format_iso_date, iso_date_text, is_valid_date};
use super::types::{NodeKind, TreeNode};
use std::collections::BTreeMap;
use crate::sorted::{
    lemma_sorted_unique, signed_lt, signed_walk_of, sorted_by, strict_total, walk_keys, walk_of,
    walk_signed_keys, num_lt,
};

verus! {

/// The date an entry file is named for: what chrono reads from the first eight bytes of
/// its name as `YYYYMMDD`.
pub open spec fn file_date(name: Seq<char>) -> Option<(int, int, int)> {
    match chars_in_bytes(name, 8) {
        Some(k) => chrono_parse_ymd(name.take(k)),
        None => None,
    }
}

/// The name splits after its first eight bytes: the tree cuts the date off there, which
/// a shorter name, or one with a character across that boundary, does not allow.
pub open spec fn has_date_prefix(name: Seq<char>) -> bool {
    chars_in_bytes(name, 8) is Some
}

/// The first eight bytes of a name, as text.
pub open spec fn date_prefix(name: Seq<char>) -> Seq<char> {
    name.take(chars_in_bytes(name, 8).unwrap())
}

/// The views of a list of strings.
pub open spec fn names_view(files: Seq<String>) -> Seq<Seq<char>> {
    files.map_values(|s: String| s@)
}

/// `ys` with `y` added in place, keeping it ordered newest first and free of repeats.
pub open spec fn insert_desc(ys: Seq<i64>, y: i64) -> Seq<i64>
    decreases ys.len(),
{
    if ys.len() == 0 {
        seq![y]
    } else if ys[0] == y {
        ys
    } else if ys[0] < y {
        seq![y] + ys
    } else {
        seq![ys[0]] + insert_desc(ys.drop_first(), y)
    }
}

/// The years of the dated files, newest first, each once.
pub open spec fn years_desc(fs: Seq<Seq<char>>) -> Seq<i64>
    decreases fs.len(),
{
    if fs.len() == 0 {
        Seq::empty()
    } else {
        let p = years_desc(fs.drop_last());
        match file_date(fs.last()) {
            Some((y, _m, _d)) => insert_desc(p, y as i64),
            None => p,
        }
    }
}

/// The months of year `y` among the dated files, newest first, each once.
pub open spec fn months_desc(fs: Seq<Seq<char>>, y: i64) -> Seq<i64>
    decreases fs.len(),
{
    if fs.len() == 0 {
        Seq::empty()
    } else {
        let p = months_desc(fs.drop_last(), y);
        match file_date(fs.last()) {
            Some((y2, m, _d)) => if y2 == y {
                insert_desc(p, m as i64)
            } else {
                p
            },
            None => p,
        }
    }
}

/// `ds` with `d` added in place, keeping it ordered from the greatest name down.
pub open spec fn insert_name_desc(ds: Seq<Seq<char>>, d: Seq<char>) -> Seq<Seq<char>>
    decreases ds.len(),
{
    if ds.len() == 0 {
        seq![d]
    } else if seq_lt(ds[0], d) {
        seq![d] + ds
    } else {
        seq![ds[0]] + insert_name_desc(ds.drop_first(), d)
    }
}

/// The files of month `m` of year `y`, by name from the greatest down.
pub open spec fn days_desc(fs: Seq<Seq<char>>, y: i64, m: i64) -> Seq<Seq<char>>
    decreases fs.len(),
{
    if fs.len() == 0 {
        Seq::empty()
    } else {
        let p = days_desc(fs.drop_last(), y, m);
        match file_date(fs.last()) {
            Some((y2, m2, _d)) => if y2 == y && m2 == m {
                insert_name_desc(p, fs.last())
            } else {
                p
            },
            None => p,
        }
    }
}

/// The greatest name (the last of equal greatest ones), as `Iterator::max` picks it.
pub open spec fn max_name(fs: Seq<Seq<char>>) -> Option<Seq<char>>
    decreases fs.len(),
{
    if fs.len() == 0 {
        None
    } else {
        match max_name(fs.drop_last()) {
            Some(m) => if seq_lt(fs.last(), m) {
                Some(m)
            } else {
                Some(fs.last())
            },
            None => Some(fs.last()),
        }
    }
}

/// The date of the newest file, which decides what the tree shows unfolded.
pub open spec fn latest_date(fs: Seq<Seq<char>>) -> Option<(int, int, int)> {
    match max_name(fs) {
        Some(f) => file_date(f),
        None => None,
    }
}

/// The label of a day node: its date written `YYYY-MM-DD`, or the first eight bytes of
/// the name when they are no date.
pub open spec fn day_label(name: Seq<char>) -> Seq<char> {
    match file_date(name) {
        Some((y, m, d)) => iso_date_text(y, m, d),
        None => date_prefix(name),
    }
}

/// `n` is the folded leaf of day file `name`.
pub open spec fn day_node_ok(n: TreeNode, name: Seq<char>) -> bool {
    &&& n.label@ == day_label(name)
    &&& n.kind matches NodeKind::Day { filename } && filename@ == name
    &&& !n.expanded
    &&& n.children@.len() == 0
}

/// `n` is the node of month `m` of year `y`, with its days newest first; it is unfolded
/// exactly when the newest file is of that month.
pub open spec fn month_node_ok(
    n: TreeNode,
    fs: Seq<Seq<char>>,
    y: i64,
    m: i64,
    latest: Option<(int, int, int)>,
) -> bool {
    let ds = days_desc(fs, y, m);
    &&& n.label@ == int_padded(y as int, 4) + seq!['-'] + int_padded(m as int, 2)
    &&& n.kind is Month
    &&& n.expanded == (latest matches Some((ly, lm, _ld)) && ly == y && lm == m)
    &&& n.children@.len() == ds.len()
    &&& forall|k: int| 0 <= k < ds.len() ==> day_node_ok(#[trigger] n.children@[k], ds[k])
}

/// `n` is the node of year `y`, with its months newest first; it is unfolded exactly
/// when the newest file is of that year.
pub open spec fn year_node_ok(
    n: TreeNode,
    fs: Seq<Seq<char>>,
    y: i64,
    latest: Option<(int, int, int)>,
) -> bool {
    let ms = months_desc(fs, y);
    &&& n.label@ == int_padded(y as int, 0)
    &&& n.kind is Year
    &&& n.expanded == (latest matches Some((ly, _lm, _ld)) && ly == y)
    &&& n.children@.len() == ms.len()
    &&& forall|j: int| 0 <= j < ms.len() ==> month_node_ok(#[trigger] n.children@[j], fs, y, ms[j], latest)
}

/// `roots` is the entry tree of the files named `fs`: one node per year, newest first.
pub open spec fn tree_of_files(roots: Seq<TreeNode>, fs: Seq<Seq<char>>) -> bool {
    let ys = years_desc(fs);
    &&& roots.len() == ys.len()
    &&& forall|i: int| 0 <= i < ys.len() ==> year_node_ok(#[trigger] roots[i], fs, ys[i], latest_date(fs))
}

/// Whether the name's first eight bytes end between two characters.
pub fn has_date_prefix_name(name: &str) -> (r: bool)
    ensures
        r == has_date_prefix(name@),
{
    let v = chars_of(name);
    chars_in_first_bytes(&v, 8).is_some()
}

/// The date a file is named for, read from the first eight bytes of its name.
pub fn date_of_file(name: &str) -> (r: Option<(i32, u32, u32)>)
    requires
        has_date_prefix(name@),
    ensures
        match r {
            Some((y, m, d)) => file_date(name@) == Some((y as int, m as int, d as int))
                && is_valid_date(y as int, m as int, d as int),
            None => file_date(name@) is None,
        },
{
    let v = chars_of(name);
    let k = chars_in_first_bytes(&v, 8).unwrap();
    proof {
        lemma_chars_in_bytes_bound(v@, 8);
    }
    let prefix = prefix_string(&v, k);
    match chrono_parse_date(prefix.as_str()) {
        Ok(ymd) => Some(ymd),
        Err(_) => None,
    }
}

/// The label of a day file's node.
fn day_label_of(name: &str) -> (s: String)
    requires
        has_date_prefix(name@),
    ensures
        s@ == day_label(name@),
{
    match date_of_file(name) {
        Some((y, m, d)) => format_iso_date(y, m, d),
        None => {
            let v = chars_of(name);
            let k = chars_in_first_bytes(&v, 8).unwrap();
            proof {
                lemma_chars_in_bytes_bound(v@, 8);
            }
            prefix_string(&v, k)
        },
    }
}

/// Inserting a name into the part after the first `j` entries, when none of them is
/// below it.
proof fn lemma_insert_name_skip(ds: Seq<Seq<char>>, d: Seq<char>, j: int)
    requires
        0 <= j <= ds.len(),
        forall|i: int| 0 <= i < j ==> !seq_lt(#[trigger] ds[i], d),
    ensures
        insert_name_desc(ds, d) == ds.take(j) + insert_name_desc(ds.skip(j), d),
    decreases j,
{
    if j == 0 {
        assert(ds.skip(0) =~= ds);
        assert(ds.take(0) + insert_name_desc(ds, d) =~= insert_name_desc(ds, d));
    } else {
        assert(!seq_lt(ds[0], d));
        lemma_insert_name_skip(ds.drop_first(), d, j - 1);
        assert(ds.drop_first().skip(j - 1) =~= ds.skip(j));
        assert(seq![ds[0]] + ds.drop_first().take(j - 1) =~= ds.take(j));
        assert(seq![ds[0]] + (ds.drop_first().take(j - 1) + insert_name_desc(ds.skip(j), d))
            =~= ds.take(j) + insert_name_desc(ds.skip(j), d));
    }
}

/// Adds a name to a list ordered from the greatest name down.
fn insert_name_vec(ds: &mut Vec<String>, d: String)
    ensures
        names_view(final(ds)@) == insert_name_desc(names_view(old(ds)@), d@),
{
    let ghost dv = names_view(ds@);
    let n = ds.len();
    let mut j: usize = 0;
    while j < n && !str_lt(ds[j].as_str(), d.as_str())
        invariant
            n == ds@.len(),
            dv == names_view(ds@),
            j <= n,
            forall|i: int| 0 <= i < j ==> !seq_lt(#[trigger] dv[i], d@),
        decreases n - j,
    {
        proof {
            assert(dv[j as int] == ds@[j as int]@);
        }
        j = j + 1;
    }
    proof {
        lemma_insert_name_skip(dv, d@, j as int);
        if j < n {
            assert(dv[j as int] == ds@[j as int]@);
            assert(insert_name_desc(dv.skip(j as int), d@) =~= seq![d@] + dv.skip(j as int));
        } else {
            assert(dv.skip(j as int) =~= Seq::<Seq<char>>::empty());
        }
    }
    let ghost before = ds@;
    ds.insert(j, d);
    proof {
        assert(names_view(ds@) =~= dv.take(j as int) + insert_name_desc(dv.skip(j as int), d@));
    }
}

/// The dates of the files, read from their names.
fn dates_of_files(files: &Vec<String>) -> (dates: Vec<Option<(i32, u32, u32)>>)
    requires
        forall|i: int| 0 <= i < files@.len() ==> has_date_prefix(#[trigger] files@[i]@),
    ensures
        dates@.len() == files@.len(),
        forall|i: int|
            0 <= i < files@.len() ==> date_matches(#[trigger] dates@[i], files@[i]@),
{
    let mut dates: Vec<Option<(i32, u32, u32)>> = Vec::new();
    let n = files.len();
    let mut i: usize = 0;
    while i < n
        invariant
            n == files@.len(),
            i <= n,
            dates@.len() == i,
            forall|k: int| 0 <= k < files@.len() ==> has_date_prefix(#[trigger] files@[k]@),
            forall|k: int| 0 <= k < i ==> date_matches(#[trigger] dates@[k], files@[k]@),
        decreases n - i,
    {
        let d = date_of_file(files[i].as_str());
        dates.push(d);
        i = i + 1;
    }
    dates
}

/// `d` is the date read from `name`.
pub open spec fn date_matches(d: Option<(i32, u32, u32)>, name: Seq<char>) -> bool {
    match d {
        Some((y, m, dd)) => file_date(name) == Some((y as int, m as int, dd as int))
            && is_valid_date(y as int, m as int, dd as int),
        None => file_date(name) is None,
    }
}

/// The greatest file name, the last of equal ones.
pub fn latest_file(files: &Vec<String>) -> (r: Option<String>)
    ensures
        match r {
            Some(f) => max_name(names_view(files@)) == Some(f@),
            None => max_name(names_view(files@)) is None,
        },
{
    let ghost fs = names_view(files@);
    let mut best: Option<String> = None;
    let n = files.len();
    let mut i: usize = 0;
    while i < n
        invariant
            n == files@.len(),
            fs == names_view(files@),
            i <= n,
            match best {
                Some(f) => max_name(fs.take(i as int)) == Some(f@),
                None => max_name(fs.take(i as int)) is None,
            },
        decreases n - i,
    {
        proof {
            assert(fs.take(i + 1).drop_last() =~= fs.take(i as int));
            assert(fs.take(i + 1).last() == files@[i as int]@);
        }
        best = match best {
            Some(m) => if str_lt(files[i].as_str(), m.as_str()) {
                Some(m)
            } else {
                Some(files[i].clone())
            },
            None => Some(files[i].clone()),
        };
        i = i + 1;
    }
    proof {
        assert(fs.take(n as int) =~= fs);
    }
    best
}

/// The leaf node of a day file.
fn day_node(name: &String) -> (n: TreeNode)
    requires
        has_date_prefix(name@),
    ensures
        day_node_ok(n, name@),
{
    TreeNode {
        label: day_label_of(name.as_str()),
        kind: NodeKind::Day { filename: name.clone() },
        children: Vec::new(),
        expanded: false,
    }
}

/// The label of a month node: `YYYY-MM`.
fn month_label(y: i64, m: i64) -> (s: String)
    ensures
        s@ == int_padded(y as int, 4) + seq!['-'] + int_padded(m as int, 2),
{
    let a = format_int_padded(y, 4);
    let b = format_int_padded(m, 2);
    let mut v = chars_of(a.as_str());
    v.push('-');
    let w = chars_of(b.as_str());
    let mut k: usize = 0;
    let ghost base = v@;
    while k < w.len()
        invariant
            k <= w@.len(),
            v@ == base + w@.take(k as int),
        decreases w@.len() - k,
    {
        v.push(w[k]);
        proof {
            assert(w@.take(k + 1) =~= w@.take(k as int).push(w@[k as int]));
            assert(base + w@.take(k + 1) =~= (base + w@.take(k as int)).push(w@[k as int]));
        }
        k = k + 1;
    }
    proof {
        assert(w@.take(w@.len() as int) =~= w@);
        assert(base + w@ =~= int_padded(y as int, 4) + seq!['-'] + int_padded(m as int, 2));
    }
    crate::text::string_from_chars(&v)
}

/// The entry tree of the files: years newest first, unfolded where the newest file is.
pub fn build_tree(files: &Vec<String>) -> (roots: Vec<TreeNode>)
    requires
        forall|i: int| 0 <= i < files@.len() ==> has_date_prefix(#[trigger] files@[i]@),
    ensures
        tree_of_files(roots@, names_view(files@)),
{
    let ghost fs = names_view(files@);
    let dates = dates_of_files(files);
    let latest = match latest_file(files) {
        Some(f) => {
            proof {
                lemma_max_name_in(fs);
                let k = choose|k: int| 0 <= k < fs.len() && fs[k] == f@;
                assert(has_date_prefix(files@[k]@));
            }
            date_of_file(f.as_str())
        },
        None => None,
    };
    let ghost lt = latest_date(fs);
    proof {
        assert(match latest {
            Some((a, b, c)) => lt == Some((a as int, b as int, c as int)),
            None => lt is None,
        });
    }
    let ym = group_files(files, &dates);
    proof {
        law_years_newest_first(fs);
        assert forall|y: i64| years_desc(fs).contains(y) implies exists|k: i32| #[trigger] wide_year(k) == y by {
            assert(has_year_file(fs, y));
            let q = choose|q: int|
                0 <= q < fs.len() && #[trigger] file_date(fs[q]) is Some && file_date(fs[q]).unwrap().0 as i64
                    == y;
            assert(date_matches(dates@[q], files@[q]@));
            assert(wide_year(dates@[q].unwrap().0) == y);
        }
    }
    let ys = years_newest_first(&ym, Ghost(fs));
    let ghost yv = ys@.map_values(|p: (i32, &BTreeMap<u32, Vec<String>>)| p.0 as i64);
    let mut roots: Vec<TreeNode> = Vec::new();
    let mut i: usize = 0;
    while i < ys.len()
        invariant
            yv == ys@.map_values(|p: (i32, &BTreeMap<u32, Vec<String>>)| p.0 as i64),
            yv == years_desc(fs),
            grouped(ym@, fs),
            forall|t: int|
                0 <= t < ys@.len() ==> ym@.contains_key((#[trigger] ys@[t]).0) && *ys@[t].1 == ym@[ys@[t].0],
            fs == names_view(files@),
            dates@.len() == files@.len(),
            forall|k: int| 0 <= k < files@.len() ==> date_matches(#[trigger] dates@[k], files@[k]@),
            forall|k: int| 0 <= k < files@.len() ==> has_date_prefix(#[trigger] files@[k]@),
            match latest {
                Some((a, b, c)) => lt == Some((a as int, b as int, c as int)),
                None => lt is None,
            },
            lt == latest_date(fs),
            i <= ys@.len(),
            roots@.len() == i,
            forall|k: int| 0 <= k < i ==> year_node_ok(#[trigger] roots@[k], fs, yv[k], lt),
        decreases ys@.len() - i,
    {
        let (yk, months_map) = ys[i];
        let y: i64 = yk as i64;
        proof {
            assert(yv[i as int] == y);
            assert(ym@.contains_key(yk) && *months_map == ym@[yk]);
            assert forall|m: u32| #[trigger] months_map@.contains_key(m) <==> months_desc(fs, y).contains(
                m as i64,
            ) by {
                assert(ym@[yk]@.contains_key(m) <==> months_desc(fs, yk as i64).contains(m as i64));
            }
            assert forall|x: i64| months_desc(fs, y).contains(x) implies exists|m: u32| #[trigger] wide_month(m) == x by {
                lemma_month_has_file(fs, y, x);
                let q = choose|q: int|
                    0 <= q < fs.len() && #[trigger] file_date(fs[q]) is Some && file_date(fs[q]).unwrap().0
                        as i64 == y && file_date(fs[q]).unwrap().1 as i64 == x;
                assert(date_matches(dates@[q], files@[q]@));
                assert(wide_month(dates@[q].unwrap().1) == x);
            }
        }
        let ms = months_newest_first(months_map, Ghost(fs), Ghost(y));
        let ghost mv = ms@.map_values(|p: (u32, &Vec<String>)| p.0 as i64);
        let mut months: Vec<TreeNode> = Vec::new();
        let mut j: usize = 0;
        while j < ms.len()
            invariant
                mv == ms@.map_values(|p: (u32, &Vec<String>)| p.0 as i64),
                mv == months_desc(fs, y),
                y == yk as i64,
                ym@.contains_key(yk) && *months_map == ym@[yk],
                grouped(ym@, fs),
                forall|t: int|
                    0 <= t < ms@.len() ==> months_map@.contains_key((#[trigger] ms@[t]).0) && *ms@[t].1
                        == months_map@[ms@[t].0],
                fs == names_view(files@),
                forall|k: int| 0 <= k < files@.len() ==> has_date_prefix(#[trigger] files@[k]@),
                match latest {
                    Some((a, b, c)) => lt == Some((a as int, b as int, c as int)),
                    None => lt is None,
                },
                j <= ms@.len(),
                months@.len() == j,
                forall|k: int| 0 <= k < j ==> month_node_ok(#[trigger] months@[k], fs, y, mv[k], lt),
            decreases ms@.len() - j,
        {
            let (mk, ds) = ms[j];
            let m: i64 = mk as i64;
            proof {
                assert(mv[j as int] == m);
                assert(months_map@.contains_key(mk) && *ds == months_map@[mk]);
                assert(ym@[yk]@.contains_key(mk));
                assert(names_view(ds@) == days_desc(fs, y, m));
            }
            let mut days: Vec<TreeNode> = Vec::new();
            let mut k: usize = 0;
            while k < ds.len()
                invariant
                    names_view(ds@) == days_desc(fs, y, m),
                    fs == names_view(files@),
                    forall|q: int| 0 <= q < files@.len() ==> has_date_prefix(#[trigger] files@[q]@),
                    k <= ds@.len(),
                    days@.len() == k,
                    forall|q: int| 0 <= q < k ==> day_node_ok(#[trigger] days@[q], names_view(ds@)[q]),
                decreases ds@.len() - k,
            {
                proof {
                    lemma_days_in_files(fs, y, m);
                    assert(names_view(ds@)[k as int] == ds@[k as int]@);
                    let q = choose|q: int| 0 <= q < fs.len() && fs[q] == days_desc(fs, y, m)[k as int];
                    assert(has_date_prefix(files@[q]@));
                }
                let node = day_node(&ds[k]);
                days.push(node);
                k = k + 1;
            }
            let expanded = match latest {
                Some((ly, lm, _ld)) => ly as i64 == y && lm as i64 == m,
                None => false,
            };
            let node = TreeNode {
                label: month_label(y, m),
                kind: NodeKind::Month,
                children: days,
                expanded,
            };
            months.push(node);
            j = j + 1;
        }
        let expanded = match latest {
            Some((ly, _lm, _ld)) => ly as i64 == y,
            None => false,
        };
        let node = TreeNode {
            label: format_int_padded(y, 0),
            kind: NodeKind::Year,
            children: months,
            expanded,
        };
        roots.push(node);
        i = i + 1;
    }
    roots
}

/// The greatest name is one of the names.
pub proof fn lemma_max_name_in(fs: Seq<Seq<char>>)
    ensures
        max_name(fs) matches Some(f) ==> exists|k: int| 0 <= k < fs.len() && fs[k] == f,
        fs.len() > 0 ==> max_name(fs) is Some,
    decreases fs.len(),
{
    if fs.len() > 0 {
        lemma_max_name_in(fs.drop_last());
        let p = fs.drop_last();
        match max_name(p) {
            Some(m) => {
                let k = choose|k: int| 0 <= k < p.len() && p[k] == m;
                assert(fs[k] == m);
                assert(fs[fs.len() - 1] == fs.last());
            },
            None => {
                assert(fs[fs.len() - 1] == fs.last());
            },
        }
    }
}

/// Inserting into an ordered list adds exactly the new name.
proof fn lemma_insert_name_members(ds: Seq<Seq<char>>, d: Seq<char>)
    ensures
        forall|x: Seq<char>| #[trigger] insert_name_desc(ds, d).contains(x) <==> (ds.contains(x) || x == d),
    decreases ds.len(),
{
    if ds.len() > 0 && !seq_lt(ds[0], d) {
        lemma_insert_name_members(ds.drop_first(), d);
        assert(insert_name_desc(ds.drop_first(), d).contains(d));
        assert forall|x: Seq<char>| insert_name_desc(ds, d).contains(x) <==> (ds.contains(x) || x
            == d) by {
            let r = insert_name_desc(ds, d);
            let t = insert_name_desc(ds.drop_first(), d);
            assert(r == seq![ds[0]] + t);
            if r.contains(x) {
                let i = choose|i: int| 0 <= i < r.len() && r[i] == x;
                if i > 0 {
                    assert(t[i - 1] == x);
                    assert(t.contains(x));
                    assert(ds.drop_first().contains(x) || x == d);
                    if ds.drop_first().contains(x) {
                        let q = choose|q: int| 0 <= q < ds.drop_first().len() && ds.drop_first()[q] == x;
                        assert(ds[q + 1] == x);
                    }
                } else {
                    assert(ds[0] == x);
                }
            }
            if ds.contains(x) {
                let q = choose|q: int| 0 <= q < ds.len() && ds[q] == x;
                if q == 0 {
                    assert(r[0] == x);
                } else {
                    assert(ds.drop_first()[q - 1] == x);
                    assert(t.contains(x));
                    let w = choose|w: int| 0 <= w < t.len() && t[w] == x;
                    assert(r[w + 1] == x);
                }
            }
            if x == d {
                assert(t.contains(x));
                let w = choose|w: int| 0 <= w < t.len() && t[w] == x;
                assert(r[w + 1] == x);
            }
        }
    } else if ds.len() > 0 {
        assert forall|x: Seq<char>| insert_name_desc(ds, d).contains(x) <==> (ds.contains(x) || x
            == d) by {
            let r = seq![d] + ds;
            if r.contains(x) {
                let i = choose|i: int| 0 <= i < r.len() && r[i] == x;
                if i > 0 {
                    assert(ds[i - 1] == x);
                }
            }
            if ds.contains(x) {
                let q = choose|q: int| 0 <= q < ds.len() && ds[q] == x;
                assert(r[q + 1] == x);
            }
            if x == d {
                assert(r[0] == x);
            }
        }
    } else {
        assert forall|x: Seq<char>| insert_name_desc(ds, d).contains(x) <==> (ds.contains(x) || x
            == d) by {
            if insert_name_desc(ds, d).contains(x) {
                assert(seq![d][0] == d);
            }
            if x == d {
                assert(seq![d][0] == d);
            }
        }
    }
}

/// Every file of a month is one of the files.
pub proof fn lemma_days_in_files(fs: Seq<Seq<char>>, y: i64, m: i64)
    ensures
        forall|k: int|
            0 <= k < days_desc(fs, y, m).len() ==> exists|q: int|
                0 <= q < fs.len() && fs[q] == #[trigger] days_desc(fs, y, m)[k],
    decreases fs.len(),
{
    if fs.len() > 0 {
        let p = fs.drop_last();
        lemma_days_in_files(p, y, m);
        let ds = days_desc(fs, y, m);
        assert forall|k: int| 0 <= k < ds.len() implies exists|q: int|
            0 <= q < fs.len() && fs[q] == #[trigger] ds[k] by {
            let pd = days_desc(p, y, m);
            match file_date(fs.last()) {
                Some((y2, m2, _d)) => {
                    if y2 == y && m2 == m {
                        lemma_insert_name_members(pd, fs.last());
                        assert(ds.contains(ds[k]));
                        if pd.contains(ds[k]) {
                            let w = choose|w: int| 0 <= w < pd.len() && pd[w] == ds[k];
                            let q = choose|q: int| 0 <= q < p.len() && p[q] == pd[w];
                            assert(fs[q] == ds[k]);
                        } else {
                            assert(fs[fs.len() - 1] == ds[k]);
                        }
                    } else {
                        let q = choose|q: int| 0 <= q < p.len() && p[q] == pd[k];
                        assert(fs[q] == ds[k]);
                    }
                },
                None => {
                    let q = choose|q: int| 0 <= q < p.len() && p[q] == pd[k];
                    assert(fs[q] == ds[k]);
                },
            }
        }
    }
}

/// The values of `ys` decrease strictly.
pub open spec fn strictly_decreasing(ys: Seq<i64>) -> bool {
    forall|i: int, j: int| 0 <= i < j < ys.len() ==> #[trigger] ys[i] > #[trigger] ys[j]
}

/// Inserting in place keeps a strictly decreasing list so, and adds just the value.
proof fn lemma_insert_desc(ys: Seq<i64>, y: i64)
    requires
        strictly_decreasing(ys),
    ensures
        strictly_decreasing(insert_desc(ys, y)),
        forall|x: i64| #[trigger] insert_desc(ys, y).contains(x) <==> (ys.contains(x) || x == y),
    decreases ys.len(),
{
    let r = insert_desc(ys, y);
    if ys.len() == 0 {
        assert(r[0] == y);
    } else if ys[0] == y {
    } else if ys[0] < y {
        assert forall|i: int, j: int| 0 <= i < j < r.len() implies #[trigger] r[i] > #[trigger] r[j] by {
            assert(r[j] == ys[j - 1]);
            if i > 0 {
                assert(r[i] == ys[i - 1]);
            } else if j - 1 > 0 {
                assert(ys[0] > ys[j - 1]);
            }
        }
        assert forall|x: i64| r.contains(x) <==> (ys.contains(x) || x == y) by {
            if r.contains(x) {
                let k = choose|k: int| 0 <= k < r.len() && r[k] == x;
                if k > 0 {
                    assert(ys[k - 1] == x);
                }
            }
            if ys.contains(x) {
                let k = choose|k: int| 0 <= k < ys.len() && ys[k] == x;
                assert(r[k + 1] == x);
            }
            if x == y {
                assert(r[0] == y);
            }
        }
    } else {
        let rest = ys.drop_first();
        assert(strictly_decreasing(rest)) by {
            assert forall|i: int, j: int| 0 <= i < j < rest.len() implies #[trigger] rest[i]
                > #[trigger] rest[j] by {
                assert(rest[i] == ys[i + 1] && rest[j] == ys[j + 1]);
            }
        }
        lemma_insert_desc(rest, y);
        let t = insert_desc(rest, y);
        assert forall|i: int, j: int| 0 <= i < j < r.len() implies #[trigger] r[i] > #[trigger] r[j] by {
            assert(r[j] == t[j - 1]);
            if i > 0 {
                assert(r[i] == t[i - 1]);
            } else {
                assert(t.contains(t[j - 1]));
                if t[j - 1] != y {
                    assert(rest.contains(t[j - 1]));
                    let k = choose|k: int| 0 <= k < rest.len() && rest[k] == t[j - 1];
                    assert(ys[k + 1] == rest[k]);
                    assert(ys[0] > ys[k + 1]);
                }
            }
        }
        assert forall|x: i64| r.contains(x) <==> (ys.contains(x) || x == y) by {
            if r.contains(x) {
                let k = choose|k: int| 0 <= k < r.len() && r[k] == x;
                if k > 0 {
                    assert(r.len() == t.len() + 1);
                    assert(0 <= k - 1 < t.len());
                    assert(t[k - 1] == x);
                    assert(t.contains(x));
                    if rest.contains(x) {
                        let q = choose|q: int| 0 <= q < rest.len() && rest[q] == x;
                        assert(ys[q + 1] == x);
                    }
                } else {
                    assert(ys[0] == x);
                }
            }
            if ys.contains(x) {
                let k = choose|k: int| 0 <= k < ys.len() && ys[k] == x;
                if k == 0 {
                    assert(r[0] == x);
                } else {
                    assert(rest[k - 1] == x);
                    assert(t.contains(x));
                    let q = choose|q: int| 0 <= q < t.len() && t[q] == x;
                    assert(r[q + 1] == x);
                }
            }
            if x == y {
                assert(t.contains(y));
                let q = choose|q: int| 0 <= q < t.len() && t[q] == y;
                assert(r[q + 1] == y);
            }
        }
    }
}

/// Some file of `fs` is dated in year `y`.
pub open spec fn has_year_file(fs: Seq<Seq<char>>, y: i64) -> bool {
    exists|i: int|
        0 <= i < fs.len() && #[trigger] file_date(fs[i]) is Some && file_date(fs[i]).unwrap().0 as i64
            == y
}

/// The tree has one year node per year that has a dated file, the newest first, each
/// year once.
pub proof fn law_years_newest_first(fs: Seq<Seq<char>>)
    ensures
        strictly_decreasing(years_desc(fs)),
        forall|y: i64| years_desc(fs).contains(y) <==> has_year_file(fs, y),
    decreases fs.len(),
{
    if fs.len() > 0 {
        let pre = fs.drop_last();
        law_years_newest_first(pre);
        let p = years_desc(pre);
        match file_date(fs.last()) {
            Some((y1, _m, _d)) => {
                lemma_insert_desc(p, y1 as i64);
            },
            None => {},
        }
        assert forall|y: i64| years_desc(fs).contains(y) <==> has_year_file(fs, y) by {
            if has_year_file(fs, y) {
                let k = choose|k: int|
                    0 <= k < fs.len() && #[trigger] file_date(fs[k]) is Some && file_date(
                        fs[k],
                    ).unwrap().0 as i64 == y;
                if k < fs.len() - 1 {
                    assert(pre[k] == fs[k]);
                    assert(has_year_file(pre, y));
                }
            }
            if has_year_file(pre, y) {
                let k = choose|k: int|
                    0 <= k < pre.len() && #[trigger] file_date(pre[k]) is Some && file_date(
                        pre[k],
                    ).unwrap().0 as i64 == y;
                assert(fs[k] == pre[k]);
            }
        }
    }
}


/// The months of a year come newest first, each once.
proof fn lemma_months_decreasing(fs: Seq<Seq<char>>, y: i64)
    ensures
        strictly_decreasing(months_desc(fs, y)),
    decreases fs.len(),
{
    if fs.len() > 0 {
        lemma_months_decreasing(fs.drop_last(), y);
        match file_date(fs.last()) {
            Some((y2, m, _d)) => {
                if y2 == y {
                    lemma_insert_desc(months_desc(fs.drop_last(), y), m as i64);
                }
            },
            None => {},
        }
    }
}

/// A year with a month is one of the years.
proof fn lemma_months_need_year(fs: Seq<Seq<char>>, y: i64)
    ensures
        months_desc(fs, y).len() > 0 ==> years_desc(fs).contains(y),
    decreases fs.len(),
{
    if fs.len() > 0 {
        let pre = fs.drop_last();
        lemma_months_need_year(pre, y);
        law_years_newest_first(pre);
        match file_date(fs.last()) {
            Some((y2, _m, _d)) => {
                lemma_insert_desc(years_desc(pre), y2 as i64);
                if months_desc(pre, y).len() > 0 {
                    assert(years_desc(pre).contains(y));
                }
            },
            None => {},
        }
    }
}

/// A month with a file is one of the months of its year.
proof fn lemma_days_need_month(fs: Seq<Seq<char>>, y: i64, m: i64)
    ensures
        days_desc(fs, y, m).len() > 0 ==> months_desc(fs, y).contains(m),
    decreases fs.len(),
{
    if fs.len() > 0 {
        let pre = fs.drop_last();
        lemma_days_need_month(pre, y, m);
        lemma_months_decreasing(pre, y);
        match file_date(fs.last()) {
            Some((y2, m2, _d)) => {
                if y2 == y {
                    lemma_insert_desc(months_desc(pre, y), m2 as i64);
                    if days_desc(pre, y, m).len() > 0 {
                        assert(months_desc(pre, y).contains(m));
                    }
                }
            },
            None => {},
        }
    }
}

/// A month of a year is the month of one of its files.
proof fn lemma_month_has_file(fs: Seq<Seq<char>>, y: i64, x: i64)
    ensures
        months_desc(fs, y).contains(x) ==> exists|k: int|
            0 <= k < fs.len() && #[trigger] file_date(fs[k]) is Some && file_date(fs[k]).unwrap().0 as i64
                == y && file_date(fs[k]).unwrap().1 as i64 == x,
    decreases fs.len(),
{
    if fs.len() > 0 {
        let pre = fs.drop_last();
        lemma_month_has_file(pre, y, x);
        lemma_months_decreasing(pre, y);
        if months_desc(fs, y).contains(x) {
            match file_date(fs.last()) {
                Some((y2, m2, _d)) => {
                    if y2 == y {
                        lemma_insert_desc(months_desc(pre, y), m2 as i64);
                    }
                    if y2 == y && x == m2 as i64 {
                        assert(file_date(fs[fs.len() - 1]) is Some);
                    } else {
                        assert(months_desc(pre, y).contains(x));
                        let k = choose|k: int|
                            0 <= k < pre.len() && #[trigger] file_date(pre[k]) is Some && file_date(
                                pre[k],
                            ).unwrap().0 as i64 == y && file_date(pre[k]).unwrap().1 as i64 == x;
                        assert(fs[k] == pre[k]);
                    }
                },
                None => {
                    let k = choose|k: int|
                        0 <= k < pre.len() && #[trigger] file_date(pre[k]) is Some && file_date(
                            pre[k],
                        ).unwrap().0 as i64 == y && file_date(pre[k]).unwrap().1 as i64 == x;
                    assert(fs[k] == pre[k]);
                },
            }
        }
    }
}

/// `ym` groups the files `fs` by year and month: its years are those of the files, the
/// months of each year those of its files, and each month holds its files from the
/// greatest name down.
pub open spec fn grouped(ym: Map<i32, BTreeMap<u32, Vec<String>>>, fs: Seq<Seq<char>>) -> bool {
    &&& forall|k: i32| #[trigger] ym.contains_key(k) <==> years_desc(fs).contains(k as i64)
    &&& forall|k: i32, m: u32|
        ym.contains_key(k) ==> (#[trigger] ym[k]@.contains_key(m) <==> months_desc(fs, k as i64).contains(
            m as i64,
        ))
    &&& forall|k: i32, m: u32|
        ym.contains_key(k) && #[trigger] ym[k]@.contains_key(m) ==> names_view(ym[k]@[m]@) == days_desc(
            fs,
            k as i64,
            m as i64,
        )
}

/// Groups the files by the year and month of their dates; the files of a month go
/// from the greatest name down.
fn group_files(files: &Vec<String>, dates: &Vec<Option<(i32, u32, u32)>>) -> (ym: BTreeMap<
    i32,
    BTreeMap<u32, Vec<String>>,
>)
    requires
        dates@.len() == files@.len(),
        forall|i: int| 0 <= i < files@.len() ==> date_matches(#[trigger] dates@[i], files@[i]@),
    ensures
        grouped(ym@, names_view(files@)),
{
    let ghost fs = names_view(files@);
    let mut ym: BTreeMap<i32, BTreeMap<u32, Vec<String>>> = BTreeMap::new();
    let n = files.len();
    let mut i: usize = 0;
    proof {
        assert(fs.take(0) =~= Seq::<Seq<char>>::empty());
    }
    while i < n
        invariant
            n == files@.len(),
            dates@.len() == n,
            fs == names_view(files@),
            i <= n,
            forall|k: int| 0 <= k < files@.len() ==> date_matches(#[trigger] dates@[k], files@[k]@),
            grouped(ym@, fs.take(i as int)),
        decreases n - i,
    {
        let ghost p = fs.take(i as int);
        let ghost q = fs.take(i + 1);
        proof {
            assert(q.drop_last() =~= p);
            assert(q.last() == files@[i as int]@);
            assert(date_matches(dates@[i as int], files@[i as int]@));
            law_years_newest_first(p);
        }
        match dates[i] {
            Some((y, m, _d)) => {
                let ghost old_ym = ym@;
                let mut months = match ym.remove(&y) {
                    Some(ms) => ms,
                    None => BTreeMap::new(),
                };
                let ghost old_months = months@;
                let mut days = match months.remove(&m) {
                    Some(ds) => ds,
                    None => Vec::new(),
                };
                proof {
                    lemma_months_need_year(p, y as i64);
                    lemma_days_need_month(p, y as i64, m as i64);
                    lemma_months_decreasing(p, y as i64);
                    lemma_insert_desc(years_desc(p), y as i64);
                    lemma_insert_desc(months_desc(p, y as i64), m as i64);
                    assert(names_view(days@) == days_desc(p, y as i64, m as i64));
                }
                insert_name_vec(&mut days, files[i].clone());
                let _ = months.insert(m, days);
                let _ = ym.insert(y, months);
                proof {
                    assert forall|k: i32| #[trigger] ym@.contains_key(k) <==> years_desc(q).contains(
                        k as i64,
                    ) by {}
                    assert forall|k: i32, m2: u32|
                        ym@.contains_key(k) implies (#[trigger] ym@[k]@.contains_key(m2)
                            <==> months_desc(q, k as i64).contains(m2 as i64)) by {
                        if k != y {
                            assert(old_ym.contains_key(k));
                        }
                    }
                    assert forall|k: i32, m2: u32|
                        ym@.contains_key(k) && #[trigger] ym@[k]@.contains_key(m2) implies names_view(
                            ym@[k]@[m2]@,
                        ) == days_desc(q, k as i64, m2 as i64) by {
                        if k != y {
                            assert(old_ym.contains_key(k));
                        } else if m2 != m {
                            assert(old_months.contains_key(m2));
                        }
                    }
                }
            },
            None => {},
        }
        i = i + 1;
    }
    proof {
        assert(fs.take(n as int) =~= fs);
    }
    ym
}


/// A year as the tree's list of years holds it.
pub open spec fn wide_year(k: i32) -> i64 {
    k as i64
}

/// A month as the tree's lists of months hold it.
pub open spec fn wide_month(k: u32) -> i64 {
    k as i64
}

/// Larger first.
pub open spec fn larger() -> spec_fn(i64, i64) -> bool {
    |a: i64, b: i64| a > b
}

proof fn lemma_larger_total()
    ensures
        strict_total(larger()),
{
}

/// The years of the grouping, newest first, each with its months.
fn years_newest_first<'a>(
    ym: &'a BTreeMap<i32, BTreeMap<u32, Vec<String>>>,
    Ghost(fs): Ghost<Seq<Seq<char>>>,
) -> (ys: Vec<(i32, &'a BTreeMap<u32, Vec<String>>)>)
    requires
        grouped(ym@, fs),
        forall|y: i64| years_desc(fs).contains(y) ==> exists|k: i32| #[trigger] wide_year(k) == y,
    ensures
        ys@.map_values(|p: (i32, &BTreeMap<u32, Vec<String>>)| p.0 as i64) == years_desc(fs),
        forall|t: int|
            0 <= t < ys@.len() ==> ym@.contains_key((#[trigger] ys@[t]).0) && *ys@[t].1 == ym@[ys@[t].0],
{
    let all = walk_signed_keys(ym);
    let n = all.len();
    let mut ys: Vec<(i32, &'a BTreeMap<u32, Vec<String>>)> = Vec::new();
    let mut i: usize = n;
    while i > 0
        invariant
            signed_walk_of(all@, ym@),
            n == all@.len(),
            i <= n,
            ys@.len() == n - i,
            forall|t: int| 0 <= t < ys@.len() ==> #[trigger] ys@[t] == (*all@[n - 1 - t].0, all@[n - 1 - t].1),
        decreases i,
    {
        i = i - 1;
        ys.push((*all[i].0, all[i].1));
    }
    proof {
        let keys = all@.map_values(|kv: (&i32, &BTreeMap<u32, Vec<String>>)| *kv.0);
        let r = ys@.map_values(|p: (i32, &BTreeMap<u32, Vec<String>>)| p.0 as i64);
        assert forall|t: int| 0 <= t < ys@.len() implies ym@.contains_key((#[trigger] ys@[t]).0)
            && *ys@[t].1 == ym@[ys@[t].0] by {
            assert(ym@.contains_key(*all@[n - 1 - t].0));
        }
        assert(sorted_by(r, larger())) by {
            assert forall|t1: int, t2: int| 0 <= t1 < t2 < r.len() implies larger()(#[trigger] r[t1], #[trigger] r[t2]) by {
                assert(keys[n - 1 - t1] == ys@[t1].0);
                assert(keys[n - 1 - t2] == ys@[t2].0);
                assert(signed_lt()(keys[n - 1 - t2], keys[n - 1 - t1]));
            }
        }
        law_years_newest_first(fs);
        assert(sorted_by(years_desc(fs), larger()));
        assert forall|y: i64| r.contains(y) <==> years_desc(fs).contains(y) by {
            if r.contains(y) {
                let t = choose|t: int| 0 <= t < r.len() && r[t] == y;
                assert(ym@.contains_key(ys@[t].0));
            }
            if years_desc(fs).contains(y) {
                let k = choose|k: i32| #[trigger] wide_year(k) == y;
                assert(ym@.contains_key(k));
                assert(all@.contains((&k, &ym@[k])));
                let u = choose|u: int| 0 <= u < all@.len() && all@[u] == (&k, &ym@[k]);
                assert(r[n - 1 - u] == y);
            }
        }
        lemma_larger_total();
        lemma_sorted_unique(r, years_desc(fs), larger());
    }
    ys
}

/// The months of year `y` in the grouping, newest first, each with its files.
fn months_newest_first<'a>(
    months: &'a BTreeMap<u32, Vec<String>>,
    Ghost(fs): Ghost<Seq<Seq<char>>>,
    Ghost(y): Ghost<i64>,
) -> (ms: Vec<(u32, &'a Vec<String>)>)
    requires
        forall|m: u32| #[trigger] months@.contains_key(m) <==> months_desc(fs, y).contains(m as i64),
        forall|x: i64| months_desc(fs, y).contains(x) ==> exists|m: u32| #[trigger] wide_month(m) == x,
    ensures
        ms@.map_values(|p: (u32, &Vec<String>)| p.0 as i64) == months_desc(fs, y),
        forall|t: int|
            0 <= t < ms@.len() ==> months@.contains_key((#[trigger] ms@[t]).0) && *ms@[t].1
                == months@[ms@[t].0],
{
    let all = walk_keys(months);
    let n = all.len();
    let mut ms: Vec<(u32, &'a Vec<String>)> = Vec::new();
    let mut i: usize = n;
    while i > 0
        invariant
            walk_of(all@, months@),
            n == all@.len(),
            i <= n,
            ms@.len() == n - i,
            forall|t: int| 0 <= t < ms@.len() ==> #[trigger] ms@[t] == (*all@[n - 1 - t].0, all@[n - 1 - t].1),
        decreases i,
    {
        i = i - 1;
        ms.push((*all[i].0, all[i].1));
    }
    proof {
        let keys = all@.map_values(|kv: (&u32, &Vec<String>)| *kv.0);
        let r = ms@.map_values(|p: (u32, &Vec<String>)| p.0 as i64);
        assert forall|t: int| 0 <= t < ms@.len() implies months@.contains_key((#[trigger] ms@[t]).0)
            && *ms@[t].1 == months@[ms@[t].0] by {
            assert(months@.contains_key(*all@[n - 1 - t].0));
        }
        assert(sorted_by(r, larger())) by {
            assert forall|t1: int, t2: int| 0 <= t1 < t2 < r.len() implies larger()(#[trigger] r[t1], #[trigger] r[t2]) by {
                assert(keys[n - 1 - t1] == ms@[t1].0);
                assert(keys[n - 1 - t2] == ms@[t2].0);
                assert(num_lt()(keys[n - 1 - t2], keys[n - 1 - t1]));
            }
        }
        lemma_months_decreasing(fs, y);
        assert(sorted_by(months_desc(fs, y), larger()));
        assert forall|x: i64| r.contains(x) <==> months_desc(fs, y).contains(x) by {
            if r.contains(x) {
                let t = choose|t: int| 0 <= t < r.len() && r[t] == x;
                assert(months@.contains_key(ms@[t].0));
            }
            if months_desc(fs, y).contains(x) {
                let m = choose|m: u32| #[trigger] wide_month(m) == x;
                assert(months@.contains_key(m));
                assert(all@.contains((&m, &months@[m])));
                let u = choose|u: int| 0 <= u < all@.len() && all@[u] == (&m, &months@[m]);
                assert(r[n - 1 - u] == x);
            }
        }
        lemma_larger_total();
        lemma_sorted_unique(r, months_desc(fs, y), larger());
    }
    ms
}

} // verus!
