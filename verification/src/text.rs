//! Text as sequences of characters: splitting a buffer into lines at `'\n'`,
//! joining lines back, and the conversions between `String` and `Vec<char>`.
use vstd::prelude::*;
use vstd::std_specs::iter::IteratorSpec;

verus! {

/// The lines of `s`, split at every `'\n'` (as `str::split('\n')` yields them):
/// the empty text has one empty line, and a trailing `'\n'` ends with an empty line.
pub open spec fn split_lines(s: Seq<char>) -> Seq<Seq<char>>
    decreases s.len(),
{
    if s.len() == 0 {
        seq![Seq::<char>::empty()]
    } else {
        let prev = split_lines(s.drop_last());
        if s.last() == '\n' {
            prev.push(Seq::<char>::empty())
        } else {
            prev.update(prev.len() - 1, prev.last().push(s.last()))
        }
    }
}

/// The lines `ls` written one after the other with a `'\n'` between neighbours.
pub open spec fn join_lines(ls: Seq<Seq<char>>) -> Seq<char>
    decreases ls.len(),
{
    if ls.len() == 0 {
        Seq::<char>::empty()
    } else if ls.len() == 1 {
        ls[0]
    } else {
        join_lines(ls.drop_last()) + seq!['\n'] + ls.last()
    }
}

/// `s` holds no line break.
pub open spec fn no_newline(s: Seq<char>) -> bool {
    forall|i: int| 0 <= i < s.len() ==> s[i] != '\n'
}

/// Every line of `ls` is free of line breaks.
pub open spec fn all_plain(ls: Seq<Seq<char>>) -> bool {
    forall|i: int| 0 <= i < ls.len() ==> no_newline(#[trigger] ls[i])
}

/// The views of a vector of character vectors.
pub open spec fn lines_view(v: Seq<Vec<char>>) -> Seq<Seq<char>> {
    v.map_values(|l: Vec<char>| l@)
}

/// A text always has at least one line, and no line holds a line break.
pub proof fn lemma_split_lines_shape(s: Seq<char>)
    ensures
        split_lines(s).len() >= 1,
        all_plain(split_lines(s)),
    decreases s.len(),
{
    if s.len() > 0 {
        lemma_split_lines_shape(s.drop_last());
        let prev = split_lines(s.drop_last());
        if s.last() != '\n' {
            let ls = split_lines(s);
            assert forall|i: int| 0 <= i < ls.len() implies no_newline(#[trigger] ls[i]) by {
                if i == prev.len() - 1 {
                    assert(no_newline(prev[i]));
                } else {
                    assert(ls[i] == prev[i]);
                }
            }
        } else {
            let ls = split_lines(s);
            assert forall|i: int| 0 <= i < ls.len() implies no_newline(#[trigger] ls[i]) by {
                if i < prev.len() {
                    assert(ls[i] == prev[i]);
                }
            }
        }
    }
}

/// Appending text without line breaks extends the last line.
pub proof fn lemma_split_append_plain(s: Seq<char>, t: Seq<char>)
    requires
        no_newline(t),
    ensures
        split_lines(s + t) == split_lines(s).update(
            split_lines(s).len() - 1,
            split_lines(s).last() + t,
        ),
    decreases t.len(),
{
    lemma_split_lines_shape(s);
    if t.len() == 0 {
        assert(s + t =~= s);
        assert(split_lines(s).last() + t =~= split_lines(s).last());
        assert(split_lines(s).update(split_lines(s).len() - 1, split_lines(s).last())
            =~= split_lines(s));
    } else {
        let t2 = t.drop_last();
        assert(no_newline(t2)) by {
            assert forall|i: int| 0 <= i < t2.len() implies t2[i] != '\n' by {
                assert(t2[i] == t[i]);
            }
        }
        lemma_split_append_plain(s, t2);
        assert((s + t).drop_last() =~= s + t2);
        assert((s + t).last() == t.last());
        assert(t[t.len() - 1] != '\n');
        let p = split_lines(s);
        let k = p.len() - 1;
        assert(split_lines(s + t2).last() == p.last() + t2);
        assert((p.last() + t2).push(t.last()) =~= p.last() + t);
        assert(split_lines(s + t2).update(k, (p.last() + t2).push(t.last())) =~= p.update(
            k,
            p.last() + t,
        ));
    }
}

/// Appending a line break starts a new empty line.
pub proof fn lemma_split_push_newline(s: Seq<char>)
    ensures
        split_lines(s.push('\n')) == split_lines(s).push(Seq::<char>::empty()),
{
    assert(s.push('\n').drop_last() =~= s);
}

/// Joining lines whose last one is extended by `t` extends the joined text by `t`.
pub proof fn lemma_join_extend_last(ls: Seq<Seq<char>>, t: Seq<char>)
    requires
        ls.len() >= 1,
    ensures
        join_lines(ls.update(ls.len() - 1, ls.last() + t)) == join_lines(ls) + t,
{
    let ls2 = ls.update(ls.len() - 1, ls.last() + t);
    if ls.len() == 1 {
    } else {
        assert(ls2.drop_last() =~= ls.drop_last());
        assert(join_lines(ls2) == join_lines(ls.drop_last()) + seq!['\n'] + (ls.last() + t));
        assert(join_lines(ls.drop_last()) + seq!['\n'] + (ls.last() + t) =~= join_lines(ls.drop_last())
            + seq!['\n'] + ls.last() + t);
    }
}

/// Splitting a text and joining its lines gives the text back.
pub proof fn lemma_join_split(s: Seq<char>)
    ensures
        join_lines(split_lines(s)) == s,
    decreases s.len(),
{
    if s.len() == 0 {
        assert(join_lines(split_lines(s)) =~= s);
    } else {
        let s2 = s.drop_last();
        lemma_join_split(s2);
        lemma_split_lines_shape(s2);
        let p = split_lines(s2);
        if s.last() == '\n' {
            let q = p.push(Seq::<char>::empty());
            assert(q.drop_last() =~= p);
            assert(join_lines(q) == join_lines(p) + seq!['\n'] + Seq::<char>::empty());
            assert(s2 + seq!['\n'] + Seq::<char>::empty() =~= s);
        } else {
            lemma_join_extend_last(p, seq![s.last()]);
            assert(p.last() + seq![s.last()] =~= p.last().push(s.last()));
            assert(s2 + seq![s.last()] =~= s);
        }
    }
}

/// Joining lines free of line breaks and splitting the result gives the lines back.
pub proof fn lemma_split_join(ls: Seq<Seq<char>>)
    requires
        ls.len() >= 1,
        all_plain(ls),
    ensures
        split_lines(join_lines(ls)) == ls,
    decreases ls.len(),
{
    if ls.len() == 1 {
        lemma_split_append_plain(Seq::<char>::empty(), ls[0]);
        assert(Seq::<char>::empty() + ls[0] =~= ls[0]);
        assert(split_lines(Seq::<char>::empty()) =~= seq![Seq::<char>::empty()]);
        assert(Seq::<char>::empty() + ls[0] =~= ls[0]);
        assert(seq![Seq::<char>::empty()].update(0, Seq::<char>::empty() + ls[0]) =~= ls);
    } else {
        let init = ls.drop_last();
        assert(all_plain(init)) by {
            assert forall|i: int| 0 <= i < init.len() implies no_newline(#[trigger] init[i]) by {
                assert(init[i] == ls[i]);
            }
        }
        lemma_split_join(init);
        let a = join_lines(init);
        lemma_split_push_newline(a);
        assert(no_newline(ls[ls.len() - 1]));
        lemma_split_append_plain(a.push('\n'), ls.last());
        assert(a + seq!['\n'] + ls.last() =~= a.push('\n') + ls.last());
        let q = init.push(Seq::<char>::empty());
        assert(Seq::<char>::empty() + ls.last() =~= ls.last());
        assert(q.update(q.len() - 1, ls.last()) =~= ls);
    }
}

/// Splits a buffer of characters into its lines.
pub fn split_lines_vec(chars: &Vec<char>) -> (lines: Vec<Vec<char>>)
    ensures
        lines_view(lines@) == split_lines(chars@),
        lines@.len() >= 1,
{
    let mut lines: Vec<Vec<char>> = Vec::new();
    let mut cur: Vec<char> = Vec::new();
    let n = chars.len();
    let mut i: usize = 0;
    while i < n
        invariant
            n == chars@.len(),
            i <= n,
            lines_view(lines@).push(cur@) == split_lines(chars@.take(i as int)),
        decreases n - i,
    {
        let c = chars[i];
        proof {
            assert(chars@.take(i + 1).drop_last() =~= chars@.take(i as int));
            assert(chars@.take(i + 1).last() == c);
        }
        if c == '\n' {
            let ghost old_lines = lines@;
            let ghost old_cur = cur@;
            lines.push(cur);
            cur = Vec::new();
            proof {
                assert(lines_view(lines@) =~= lines_view(old_lines).push(old_cur));
            }
        } else {
            let ghost old_cur = cur@;
            cur.push(c);
            proof {
                let p = lines_view(lines@).push(old_cur);
                assert(lines_view(lines@).push(cur@) =~= p.update(p.len() - 1, p.last().push(c)));
            }
        }
        i = i + 1;
    }
    let ghost old_lines = lines@;
    let ghost old_cur = cur@;
    lines.push(cur);
    proof {
        assert(chars@.take(n as int) =~= chars@);
        assert(lines_view(lines@) =~= lines_view(old_lines).push(old_cur));
    }
    lines
}

/// Joins lines with a `'\n'` between neighbours.
pub fn join_lines_vec(lines: &Vec<Vec<char>>) -> (text: Vec<char>)
    ensures
        text@ == join_lines(lines_view(lines@)),
{
    let mut out: Vec<char> = Vec::new();
    let n = lines.len();
    let mut i: usize = 0;
    while i < n
        invariant
            n == lines@.len(),
            i <= n,
            out@ == join_lines(lines_view(lines@).take(i as int)),
        decreases n - i,
    {
        let ghost before = out@;
        if i > 0 {
            out.push('\n');
        }
        let ghost mid = out@;
        let line = &lines[i];
        let m = line.len();
        let mut j: usize = 0;
        while j < m
            invariant
                m == line@.len(),
                j <= m,
                out@ == mid + line@.take(j as int),
            decreases m - j,
        {
            out.push(line[j]);
            proof {
                assert(line@.take(j + 1) =~= line@.take(j as int).push(line@[j as int]));
                assert(mid + line@.take(j + 1) =~= (mid + line@.take(j as int)).push(line@[j as int]));
            }
            j = j + 1;
        }
        proof {
            assert(line@.take(m as int) =~= line@);
            let lv = lines_view(lines@);
            assert(lv.take(i + 1).drop_last() =~= lv.take(i as int));
            assert(lv.take(i + 1).last() == lines@[i as int]@);
            if i == 0 {
                assert(out@ =~= join_lines(lv.take(1)));
            } else {
                assert(out@ =~= before + seq!['\n'] + line@);
            }
        }
        i = i + 1;
    }
    proof {
        assert(lines_view(lines@).take(n as int) =~= lines_view(lines@));
    }
    out
}

/// The characters of a string, in order.
pub(crate) fn chars_of(s: &str) -> (v: Vec<char>)
    ensures
        v@ == s@,
{
    broadcast use vstd::string::group_string_axioms;

    let mut v: Vec<char> = Vec::new();
    let mut it = s.chars();
    loop
        invariant
            v@ + it.remaining() == s@,
            it.decrease() is Some,
        ensures
            v@ == s@,
        decreases it.decrease()->0,
    {
        let ghost before = it.remaining();
        match it.next() {
            Some(c) => {
                v.push(c);
                proof {
                    assert(v@ + it.remaining() =~= s@) by {
                        assert(before == seq![c] + before.drop_first());
                    }
                }
            },
            None => {
                proof {
                    assert(v@ =~= s@);
                }
                break ;
            },
        }
    }
    v
}

/// The string made of the given characters, in order (`String::from_iter`).
#[verifier::external_body]
pub(crate) fn string_from_chars(v: &Vec<char>) -> (s: String)
    ensures
        s@ == v@,
{
    v.iter().collect()
}

/// Whether two strings hold the same characters.
pub fn str_eq(a: &str, b: &str) -> (r: bool)
    ensures
        r == (a@ == b@),
{
    let x = chars_of(a);
    let y = chars_of(b);
    if x.len() != y.len() {
        proof {
            if a@ == b@ {
                assert(x@.len() == y@.len());
            }
        }
        return false;
    }
    let n = x.len();
    let mut i: usize = 0;
    while i < n
        invariant
            n == x@.len(),
            n == y@.len(),
            x@ == a@,
            y@ == b@,
            i <= n,
            forall|j: int| 0 <= j < i ==> x@[j] == y@[j],
        decreases n - i,
    {
        if x[i] != y[i] {
            proof {
                assert(x@ == a@);
                assert(y@ == b@);
                assert(x@[i as int] != y@[i as int]);
            }
            return false;
        }
        i = i + 1;
    }
    proof {
        assert(x@ =~= y@);
    }
    true
}

/// Strict lexicographic order on texts, character by character (the order of `String`).
pub open spec fn seq_lt(a: Seq<char>, b: Seq<char>) -> bool
    decreases a.len(),
{
    if a.len() == 0 {
        b.len() > 0
    } else if b.len() == 0 {
        false
    } else if a[0] != b[0] {
        (a[0] as int) < (b[0] as int)
    } else {
        seq_lt(a.drop_first(), b.drop_first())
    }
}

/// No text is below itself.
pub proof fn lemma_seq_lt_irreflexive(a: Seq<char>)
    ensures
        !seq_lt(a, a),
    decreases a.len(),
{
    if a.len() > 0 {
        lemma_seq_lt_irreflexive(a.drop_first());
    }
}

/// Of two different texts one is below the other, and never both.
pub proof fn lemma_seq_lt_total(a: Seq<char>, b: Seq<char>)
    ensures
        a != b ==> (seq_lt(a, b) || seq_lt(b, a)),
        !(seq_lt(a, b) && seq_lt(b, a)),
    decreases a.len(),
{
    if a.len() == 0 || b.len() == 0 {
        if a.len() == 0 && b.len() == 0 {
            assert(a =~= b);
        }
    } else if a[0] != b[0] {
        let x = a[0] as int;
        let y = b[0] as int;
        assert(x != y);
    } else {
        lemma_seq_lt_total(a.drop_first(), b.drop_first());
        if a != b {
            if a.drop_first() =~= b.drop_first() {
                assert(a =~= b) by {
                    assert forall|i: int| 0 <= i < a.len() implies a[i] == b[i] by {
                        if i > 0 {
                            assert(a[i] == a.drop_first()[i - 1]);
                            assert(b[i] == b.drop_first()[i - 1]);
                        }
                    }
                }
            }
        }
    }
}

/// The order is transitive.
pub proof fn lemma_seq_lt_transitive(a: Seq<char>, b: Seq<char>, c: Seq<char>)
    requires
        seq_lt(a, b),
        seq_lt(b, c),
    ensures
        seq_lt(a, c),
    decreases a.len(),
{
    if a.len() > 0 && b.len() > 0 && c.len() > 0 {
        if a[0] == b[0] && b[0] == c[0] {
            lemma_seq_lt_transitive(a.drop_first(), b.drop_first(), c.drop_first());
        }
    }
}

/// Whether `a` comes strictly before `b` in the order of strings.
pub fn str_lt(a: &str, b: &str) -> (r: bool)
    ensures
        r == seq_lt(a@, b@),
{
    let x = chars_of(a);
    let y = chars_of(b);
    let mut i: usize = 0;
    proof {
        assert(x@.skip(0) =~= x@);
        assert(y@.skip(0) =~= y@);
    }
    while i < x.len() && i < y.len() && x[i] == y[i]
        invariant
            i <= x@.len(),
            i <= y@.len(),
            x@ == a@,
            y@ == b@,
            seq_lt(x@, y@) == seq_lt(x@.skip(i as int), y@.skip(i as int)),
        decreases x@.len() - i,
    {
        proof {
            assert(x@.skip(i as int).drop_first() =~= x@.skip(i + 1));
            assert(y@.skip(i as int).drop_first() =~= y@.skip(i + 1));
        }
        i = i + 1;
    }
    if i < x.len() && i < y.len() {
        let r = x[i] < y[i];
        proof {
            assert(x@.skip(i as int)[0] == x@[i as int]);
            assert(y@.skip(i as int)[0] == y@[i as int]);
            assert(x@[i as int] != y@[i as int]);
            assert(r == ((x@[i as int] as int) < (y@[i as int] as int)));
        }
        r
    } else {
        i == x.len() && i < y.len()
    }
}

/// The digit character for `d` in 0..10.
pub open spec fn digit_char(d: int) -> char {
    (d + 48) as char
}

/// The decimal digits of `n`, without leading zeros (`"0"` for zero).
pub open spec fn decimal(n: nat) -> Seq<char>
    decreases n,
{
    if n < 10 {
        seq![digit_char(n as int)]
    } else {
        decimal(n / 10).push(digit_char((n % 10) as int))
    }
}

/// `k` zeros (none when `k` is not positive).
pub open spec fn zeros(k: int) -> Seq<char> {
    Seq::new(if k > 0 { k as nat } else { 0 }, |i: int| '0')
}

/// `v` written in decimal and padded with zeros after the sign to at least `w`
/// characters, as `format!("{:0w$}", v)` writes it.
pub open spec fn int_padded(v: int, w: int) -> Seq<char> {
    if v < 0 {
        seq!['-'] + zeros(w - 1 - decimal((-v) as nat).len()) + decimal((-v) as nat)
    } else {
        zeros(w - decimal(v as nat).len()) + decimal(v as nat)
    }
}

/// A number has at least one digit.
pub proof fn lemma_decimal_len(n: nat)
    ensures
        decimal(n).len() >= 1,
        n < 10 ==> decimal(n).len() == 1,
        10 <= n < 100 ==> decimal(n).len() == 2,
        100 <= n < 1000 ==> decimal(n).len() == 3,
        1000 <= n < 10000 ==> decimal(n).len() == 4,
    decreases n,
{
    if n >= 10 {
        lemma_decimal_len(n / 10);
    }
}

fn push_decimal(out: &mut Vec<char>, n: u64)
    ensures
        final(out)@ == old(out)@ + decimal(n as nat),
    decreases n,
{
    if n >= 10 {
        push_decimal(out, n / 10);
    }
    let d = (n % 10) as u8;
    out.push((d + 48) as char);
    proof {
        if n >= 10 {
            assert(old(out)@ + decimal((n / 10) as nat) + seq![digit_char((n % 10) as int)] =~= old(
                out,
            )@ + decimal(n as nat));
        } else {
            assert(old(out)@.push(digit_char(n as int)) =~= old(out)@ + decimal(n as nat));
        }
    }
}

/// `v` in decimal, zero-padded after the sign to `width` characters (`format!("{:0w$}", v)`).
pub fn format_int_padded(v: i64, width: usize) -> (s: String)
    ensures
        s@ == int_padded(v as int, width as int),
{
    let mut out: Vec<char> = Vec::new();
    let mag: u64 = if v < 0 {
        (0i128 - (v as i128)) as u64
    } else {
        v as u64
    };
    let mut digits: Vec<char> = Vec::new();
    push_decimal(&mut digits, mag);
    proof {
        assert(digits@ =~= decimal(mag as nat));
    }
    let sign_len: usize = if v < 0 {
        1
    } else {
        0
    };
    if v < 0 {
        out.push('-');
    }
    let used = sign_len as u128 + digits.len() as u128;
    let pad: usize = if (width as u128) > used {
        (width as u128 - used) as usize
    } else {
        0
    };
    let mut k: usize = 0;
    while k < pad
        invariant
            k <= pad,
            out@ == (if v < 0 {
                seq!['-']
            } else {
                Seq::<char>::empty()
            }) + Seq::new(k as nat, |i: int| '0'),
        decreases pad - k,
    {
        out.push('0');
        proof {
            let pre = if v < 0 {
                seq!['-']
            } else {
                Seq::<char>::empty()
            };
            assert(pre + Seq::new((k + 1) as nat, |i: int| '0') =~= (pre + Seq::new(
                k as nat,
                |i: int| '0',
            )).push('0'));
        }
        k = k + 1;
    }
    let n = digits.len();
    let mut j: usize = 0;
    let ghost base = out@;
    while j < n
        invariant
            n == digits@.len(),
            j <= n,
            out@ == base + digits@.take(j as int),
        decreases n - j,
    {
        out.push(digits[j]);
        proof {
            assert(digits@.take(j + 1) =~= digits@.take(j as int).push(digits@[j as int]));
            assert(base + digits@.take(j + 1) =~= (base + digits@.take(j as int)).push(
                digits@[j as int],
            ));
        }
        j = j + 1;
    }
    proof {
        assert(digits@.take(n as int) =~= digits@);
        if v < 0 {
            assert(mag as int == -(v as int));
            assert(Seq::new(pad as nat, |i: int| '0') =~= zeros(width - 1 - decimal(mag as nat).len()));
            assert(out@ =~= int_padded(v as int, width as int));
        } else {
            assert(Seq::new(pad as nat, |i: int| '0') =~= zeros(width - decimal(mag as nat).len()));
            assert(out@ =~= int_padded(v as int, width as int));
        }
    }
    string_from_chars(&out)
}

/// The number of bytes UTF-8 takes for `c`.
pub open spec fn utf8_width(c: char) -> int {
    if (c as u32) < 0x80 {
        1
    } else if (c as u32) < 0x800 {
        2
    } else if (c as u32) < 0x10000 {
        3
    } else {
        4
    }
}

/// How many characters of `s` make up its first `n` bytes in UTF-8, if `n` bytes end
/// between two characters of `s`.
pub open spec fn chars_in_bytes(s: Seq<char>, n: int) -> Option<int>
    decreases s.len(),
{
    if n == 0 {
        Some(0)
    } else if n < 0 || s.len() == 0 {
        None
    } else if utf8_width(s[0]) > n {
        None
    } else {
        match chars_in_bytes(s.drop_first(), n - utf8_width(s[0])) {
            Some(k) => Some(k + 1),
            None => None,
        }
    }
}

/// The character count of the first `n` bytes of `s`.
pub proof fn lemma_chars_in_bytes_bound(s: Seq<char>, n: int)
    ensures
        chars_in_bytes(s, n) matches Some(k) ==> 0 <= k <= s.len(),
    decreases s.len(),
{
    if n != 0 && n >= 0 && s.len() > 0 && utf8_width(s[0]) <= n {
        lemma_chars_in_bytes_bound(s.drop_first(), n - utf8_width(s[0]));
    }
}

/// How many characters of `v` make up its first `n` bytes in UTF-8, if `n` bytes end
/// between two characters.
pub fn chars_in_first_bytes(v: &Vec<char>, n: usize) -> (r: Option<usize>)
    ensures
        match r {
            Some(k) => chars_in_bytes(v@, n as int) == Some(k as int),
            None => chars_in_bytes(v@, n as int) is None,
        },
{
    let len = v.len();
    let mut i: usize = 0;
    let mut left: usize = n;
    proof {
        assert(v@.skip(0) =~= v@);
    }
    while left > 0
        invariant
            len == v@.len(),
            i <= len,
            left <= n,
            chars_in_bytes(v@, n as int) == (match chars_in_bytes(v@.skip(i as int), left as int) {
                Some(k) => Some(k + i),
                None => None::<int>,
            }),
        decreases left,
    {
        if i >= len {
            return None;
        }
        let c = v[i];
        let w: usize = if (c as u32) < 0x80 {
            1
        } else if (c as u32) < 0x800 {
            2
        } else if (c as u32) < 0x10000 {
            3
        } else {
            4
        };
        proof {
            assert(v@.skip(i as int)[0] == c);
            assert(v@.skip(i as int).drop_first() =~= v@.skip(i + 1));
        }
        if w > left {
            return None;
        }
        left = left - w;
        i = i + 1;
    }
    Some(i)
}

/// The string of the first `k` characters of `v`.
pub fn prefix_string(v: &Vec<char>, k: usize) -> (s: String)
    requires
        k <= v@.len(),
    ensures
        s@ == v@.take(k as int),
{
    let mut out: Vec<char> = Vec::new();
    let mut i: usize = 0;
    while i < k
        invariant
            k <= v@.len(),
            i <= k,
            out@ == v@.take(i as int),
        decreases k - i,
    {
        out.push(v[i]);
        proof {
            assert(v@.take(i + 1) =~= v@.take(i as int).push(v@[i as int]));
        }
        i = i + 1;
    }
    string_from_chars(&out)
}

/// The length of `s` in bytes, written in UTF-8 (what `str::len` gives).
pub open spec fn byte_len(s: Seq<char>) -> int
    decreases s.len(),
{
    if s.len() == 0 {
        0
    } else {
        byte_len(s.drop_last()) + utf8_width(s.last())
    }
}

/// The length of `s` in bytes.
pub fn utf8_len(s: &str) -> (n: usize)
    ensures
        n as int == byte_len(s@) || (byte_len(s@) > usize::MAX && n == usize::MAX),
{
    let v = chars_of(s);
    let mut total: usize = 0;
    let mut i: usize = 0;
    while i < v.len()
        invariant
            v@ == s@,
            i <= v@.len(),
            total as int == byte_len(v@.take(i as int)) || (byte_len(v@.take(i as int)) > usize::MAX
                && total == usize::MAX),
            byte_len(v@.take(i as int)) >= 0,
        decreases v@.len() - i,
    {
        let c = v[i];
        let w: usize = if (c as u32) < 0x80 {
            1
        } else if (c as u32) < 0x800 {
            2
        } else if (c as u32) < 0x10000 {
            3
        } else {
            4
        };
        proof {
            assert(v@.take(i + 1).drop_last() =~= v@.take(i as int));
            assert(v@.take(i + 1).last() == c);
        }
        total = if total > usize::MAX - w {
            usize::MAX
        } else {
            total + w
        };
        i = i + 1;
    }
    proof {
        assert(v@.take(v@.len() as int) =~= v@);
    }
    total
}

/// Removes the last character of a string, if any.
pub fn pop_char(s: &mut String)
    ensures
        final(s)@ == (if old(s)@.len() > 0 {
            old(s)@.drop_last()
        } else {
            old(s)@
        }),
{
    let v = chars_of(s.as_str());
    if v.len() == 0 {
        return;
    }
    let k = v.len() - 1;
    let t = prefix_string(&v, k);
    proof {
        assert(v@.take(k as int) =~= v@.drop_last());
    }
    *s = t;
}

/// The texts `ps` written one after the other with `sep` between neighbours.
pub open spec fn join_with(ps: Seq<Seq<char>>, sep: Seq<char>) -> Seq<char>
    decreases ps.len(),
{
    if ps.len() == 0 {
        Seq::empty()
    } else if ps.len() == 1 {
        ps[0]
    } else {
        join_with(ps.drop_last(), sep) + sep + ps.last()
    }
}

/// The strings of `v` joined with `sep` between neighbours (`[String]::join`).
pub fn join_strings(v: &Vec<String>, sep: &str) -> (s: String)
    ensures
        s@ == join_with(v@.map_values(|x: String| x@), sep@),
{
    let ghost views = v@.map_values(|x: String| x@);
    let mut s = String::new();
    let n = v.len();
    let mut i: usize = 0;
    proof {
        assert(views.take(0) =~= Seq::<Seq<char>>::empty());
    }
    while i < n
        invariant
            n == v@.len(),
            views == v@.map_values(|x: String| x@),
            i <= n,
            s@ == join_with(views.take(i as int), sep@),
        decreases n - i,
    {
        if i > 0 {
            append_str(&mut s, sep);
        }
        append_str(&mut s, v[i].as_str());
        proof {
            let pre = views.take(i + 1);
            assert(pre.drop_last() =~= views.take(i as int));
            assert(pre.last() == v@[i as int]@);
            if i == 0 {
                assert(s@ =~= pre[0]);
            }
        }
        i = i + 1;
    }
    proof {
        assert(views.take(n as int) =~= views);
    }
    s
}

/// Appends the characters of `t` to a string.
pub fn append_str(s: &mut String, t: &str)
    ensures
        final(s)@ == old(s)@ + t@,
{
    let mut v = chars_of(s.as_str());
    let w = chars_of(t);
    let n = w.len();
    let mut i: usize = 0;
    while i < n
        invariant
            n == w@.len(),
            w@ == t@,
            i <= n,
            v@ == old(s)@ + w@.take(i as int),
        decreases n - i,
    {
        v.push(w[i]);
        proof {
            assert(w@.take(i + 1) =~= w@.take(i as int).push(w@[i as int]));
        }
        i = i + 1;
    }
    proof {
        assert(w@.take(n as int) =~= w@);
    }
    *s = string_from_chars(&v);
}

/// Appends a character to a string.
pub fn push_char(s: &mut String, c: char)
    ensures
        final(s)@ == old(s)@.push(c),
{
    let mut v = chars_of(s.as_str());
    v.push(c);
    *s = string_from_chars(&v);
}

/// `v` in decimal, as `format!("{}", v)` writes it.
pub open spec fn int_text(v: int) -> Seq<char> {
    int_padded(v, 1)
}

/// `n` in decimal.
pub fn format_usize(n: usize) -> (s: String)
    ensures
        s@ == decimal(n as nat),
{
    let mut out: Vec<char> = Vec::new();
    push_decimal(&mut out, n as u64);
    proof {
        assert(out@ =~= decimal(n as nat));
    }
    string_from_chars(&out)
}

/// `v` in decimal.
pub fn format_int(v: i64) -> (s: String)
    ensures
        s@ == int_text(v as int),
{
    format_int_padded(v, 1)
}

} // verus!
