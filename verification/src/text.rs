//! Byte-string utilities.
//!
//! All textual data in this library is modelled as byte vectors; these are
//! the shared primitives the parsers and builders are specified with.

use vstd::prelude::*;

verus! {

use vstd::string::StringSliceAdditionalSpecFns;

/// Turns a string literal into its byte vector.
pub fn bytes_of(s: &str) -> (r: Vec<u8>)
    ensures
        r@ == s.spec_bytes(),
{
    vstd::slice::slice_to_vec(s.as_bytes())
}

/// Byte-vector equality.
pub fn bytes_eq(a: &Vec<u8>, b: &Vec<u8>) -> (r: bool)
    ensures
        r == (a@ == b@),
{
    if a.len() != b.len() {
        assert(a@ != b@) by {
            if a@ == b@ {
                assert(a@.len() == b@.len());
            }
        }
        return false;
    }
    let n = a.len();
    let mut i: usize = 0;
    while i < n
        invariant
            n == a@.len() == b@.len(),
            i <= n,
            forall|j: int| 0 <= j < i ==> a@[j] == b@[j],
        decreases n - i,
    {
        if a[i] != b[i] {
            return false;
        }
        i += 1;
    }
    proof {
        assert(a@ =~= b@);
    }
    true
}

/// Whether `a` starts with `prefix`.
pub open spec fn spec_starts_with(a: Seq<u8>, prefix: Seq<u8>) -> bool {
    a.len() >= prefix.len() && a.subrange(0, prefix.len() as int) == prefix
}

pub fn starts_with(a: &Vec<u8>, prefix: &Vec<u8>) -> (r: bool)
    ensures
        r == spec_starts_with(a@, prefix@),
{
    if a.len() < prefix.len() {
        return false;
    }
    let n = prefix.len();
    let mut i: usize = 0;
    while i < n
        invariant
            n == prefix@.len() <= a@.len(),
            i <= n,
            forall|j: int| 0 <= j < i ==> a@[j] == prefix@[j],
        decreases n - i,
    {
        if a[i] != prefix[i] {
            assert(a@.subrange(0, n as int)[i as int] != prefix@[i as int]);
            return false;
        }
        i += 1;
    }
    proof {
        assert(a@.subrange(0, n as int) =~= prefix@);
    }
    true
}

/// Whether `a` ends with `suffix`.
pub open spec fn spec_ends_with(a: Seq<u8>, suffix: Seq<u8>) -> bool {
    a.len() >= suffix.len() && a.subrange(a.len() - suffix.len(), a.len() as int) == suffix
}

pub fn ends_with(a: &Vec<u8>, suffix: &Vec<u8>) -> (r: bool)
    ensures
        r == spec_ends_with(a@, suffix@),
{
    if a.len() < suffix.len() {
        return false;
    }
    let n = suffix.len();
    let alen = a.len();
    let off = alen - n;
    let mut i: usize = 0;
    while i < n
        invariant
            n == suffix@.len() <= a@.len(),
            alen == a@.len(),
            off == a@.len() - n,
            i <= n,
            forall|j: int| 0 <= j < i ==> a@[off + j] == suffix@[j],
        decreases n - i,
    {
        if a[off + i] != suffix[i] {
            assert(a@.subrange(off as int, a@.len() as int)[i as int] != suffix@[i as int]);
            return false;
        }
        i += 1;
    }
    proof {
        assert(a@.subrange(off as int, a@.len() as int) =~= suffix@);
    }
    true
}

/// Copy of the byte range `[from, to)`.
pub fn subvec(a: &Vec<u8>, from: usize, to: usize) -> (r: Vec<u8>)
    requires
        from <= to <= a@.len(),
    ensures
        r@ == a@.subrange(from as int, to as int),
{
    let mut r: Vec<u8> = Vec::new();
    let mut i = from;
    while i < to
        invariant
            from <= i <= to <= a@.len(),
            r@ == a@.subrange(from as int, i as int),
        decreases to - i,
    {
        r.push(a[i]);
        proof {
            assert(r@ =~= a@.subrange(from as int, (i + 1) as int));
        }
        i += 1;
    }
    r
}

/// Appends all of `b` to `a`.
pub fn push_all(a: &mut Vec<u8>, b: &Vec<u8>)
    ensures
        final(a)@ == old(a)@ + b@,
{
    let n = b.len();
    let mut i: usize = 0;
    while i < n
        invariant
            n == b@.len(),
            i <= n,
            a@ == old(a)@ + b@.subrange(0, i as int),
        decreases n - i,
    {
        a.push(b[i]);
        proof {
            assert(old(a)@ + b@.subrange(0, i as int) + seq![b@[i as int]] =~= old(a)@
                + b@.subrange(0, (i + 1) as int));
        }
        i += 1;
    }
    proof {
        assert(old(a)@ + b@.subrange(0, n as int) =~= old(a)@ + b@);
    }
}

/// Whether `needle` occurs in `hay` starting exactly at `i`.
pub open spec fn occurs_at(hay: Seq<u8>, needle: Seq<u8>, i: int) -> bool {
    0 <= i && i + needle.len() <= hay.len() && hay.subrange(i, i + needle.len()) == needle
}

/// First index `>= from` at which `needle` occurs in `hay`.
pub fn find_from(hay: &Vec<u8>, needle: &Vec<u8>, from: usize) -> (r: Option<usize>)
    requires
        needle@.len() > 0,
    ensures
        match r {
            Some(i) => from <= i && occurs_at(hay@, needle@, i as int) && forall|j: int|
                from <= j < i ==> !occurs_at(hay@, needle@, j),
            None => forall|j: int| from <= j ==> !occurs_at(hay@, needle@, j),
        },
{
    if hay.len() < needle.len() {
        return None;
    }
    let end = hay.len() - needle.len() + 1;
    let mut i = from;
    while i < end
        invariant
            needle@.len() > 0,
            end == hay@.len() - needle@.len() + 1,
            from <= i,
            forall|j: int| from <= j < i ==> !occurs_at(hay@, needle@, j),
        decreases end - i,
    {
        let mut k: usize = 0;
        let mut matched = true;
        let hlen = hay.len();
        while k < needle.len()
            invariant
                needle@.len() > 0,
                hlen == hay@.len(),
                i + needle@.len() <= hay@.len(),
                k <= needle@.len(),
                matched == (forall|j: int| 0 <= j < k ==> hay@[i + j] == needle@[j]),
            decreases needle@.len() - k,
        {
            if hay[i + k] != needle[k] {
                matched = false;
                k = needle.len();
            } else {
                k += 1;
            }
        }
        if matched {
            proof {
                assert(hay@.subrange(i as int, i + needle@.len()) =~= needle@);
            }
            return Some(i);
        } else {
            proof {
                if occurs_at(hay@, needle@, i as int) {
                    assert(forall|j: int|
                        0 <= j < needle@.len() ==> #[trigger] needle@[j] == hay@.subrange(
                            i as int,
                            i + needle@.len(),
                        )[j]);
                }
            }
        }
        i += 1;
    }
    proof {
        assert forall|j: int| from <= j implies !occurs_at(hay@, needle@, j) by {
            if j >= end {
                assert(!(j + needle@.len() <= hay@.len()));
            }
        }
    }
    None
}

/// Whether `pat` matches `hay` at exactly position `i`.
pub fn match_at(hay: &Vec<u8>, pat: &Vec<u8>, i: usize) -> (r: bool)
    ensures
        r == occurs_at(hay@, pat@, i as int),
{
    let hlen = hay.len();
    if i > hlen || pat.len() > hlen - i {
        return false;
    }
    let n = pat.len();
    let mut k: usize = 0;
    while k < n
        invariant
            n == pat@.len(),
            hlen == hay@.len(),
            i + n <= hlen,
            k <= n,
            forall|j: int| 0 <= j < k ==> hay@[i + j] == pat@[j],
        decreases n - k,
    {
        if hay[i + k] != pat[k] {
            proof {
                if occurs_at(hay@, pat@, i as int) {
                    assert(forall|j: int|
                        0 <= j < pat@.len() ==> #[trigger] pat@[j] == hay@.subrange(
                            i as int,
                            i + pat@.len(),
                        )[j]);
                }
            }
            return false;
        }
        k += 1;
    }
    proof {
        assert(hay@.subrange(i as int, i + n) =~= pat@);
    }
    true
}

/// Replacement of every (left-to-right, non-overlapping) occurrence of
/// `pat` by `to`.
pub open spec fn spec_replace_all(h: Seq<u8>, pat: Seq<u8>, to: Seq<u8>) -> Seq<u8>
    decreases h.len(),
{
    if pat.len() == 0 || h.len() < pat.len() {
        h
    } else if h.subrange(0, pat.len() as int) == pat {
        to + spec_replace_all(h.skip(pat.len() as int), pat, to)
    } else {
        seq![h[0]] + spec_replace_all(h.skip(1), pat, to)
    }
}

proof fn lemma_skip_skip(h: Seq<u8>, a: int, b: int)
    requires
        0 <= a,
        0 <= b,
        a + b <= h.len(),
    ensures
        h.skip(a).skip(b) == h.skip(a + b),
{
    assert(h.skip(a).skip(b) =~= h.skip(a + b));
}

proof fn lemma_occurs_skip(h: Seq<u8>, pat: Seq<u8>, d: int, j: int)
    requires
        0 <= d <= j,
        d <= h.len(),
    ensures
        occurs_at(h, pat, j) == occurs_at(h.skip(d), pat, j - d),
{
    if j + pat.len() <= h.len() {
        assert(h.skip(d).subrange(j - d, j - d + pat.len()) =~= h.subrange(j, j + pat.len()));
    }
}

pub fn replace_all(h: &Vec<u8>, pat: &Vec<u8>, to: &Vec<u8>) -> (r: Vec<u8>)
    requires
        pat@.len() > 0,
    ensures
        r@ == spec_replace_all(h@, pat@, to@),
{
    let n = h.len();
    let m = pat.len();
    let mut r: Vec<u8> = Vec::new();
    let mut i: usize = 0;
    proof {
        assert(h@.skip(0) =~= h@);
        assert(Seq::<u8>::empty() + spec_replace_all(h@, pat@, to@) =~= spec_replace_all(
            h@,
            pat@,
            to@,
        ));
    }
    while i < n
        invariant
            n == h@.len(),
            m == pat@.len() > 0,
            i <= n,
            spec_replace_all(h@, pat@, to@) == r@ + spec_replace_all(h@.skip(i as int), pat@, to@),
        decreases n - i,
    {
        let ghost r0 = r@;
        let ghost s = h@.skip(i as int);
        if match_at(h, pat, i) {
            push_all(&mut r, to);
            proof {
                assert(s.subrange(0, m as int) == pat@) by {
                    assert(s.subrange(0, m as int) =~= h@.subrange(i as int, i + m));
                }
                lemma_skip_skip(h@, i as int, m as int);
                assert(spec_replace_all(s, pat@, to@) == to@ + spec_replace_all(
                    h@.skip(i + m),
                    pat@,
                    to@,
                ));
                assert(r0 + (to@ + spec_replace_all(h@.skip(i + m), pat@, to@)) =~= (r0 + to@)
                    + spec_replace_all(h@.skip(i + m), pat@, to@));
            }
            i += m;
        } else {
            let b = h[i];
            r.push(b);
            proof {
                assert(s.len() >= 1);
                if s.len() >= pat@.len() {
                    assert(s.subrange(0, pat@.len() as int) != pat@) by {
                        if s.subrange(0, pat@.len() as int) == pat@ {
                            assert(h@.subrange(i as int, i + pat@.len()) =~= s.subrange(
                                0,
                                pat@.len() as int,
                            ));
                        }
                    }
                }
                assert(spec_replace_all(s, pat@, to@) == seq![s[0]] + spec_replace_all(
                    s.skip(1),
                    pat@,
                    to@,
                ));
                lemma_skip_skip(h@, i as int, 1);
                assert(s[0] == h@[i as int]);
                assert(r0 + (seq![s[0]] + spec_replace_all(s.skip(1), pat@, to@)) =~= (r0.push(
                    h@[i as int],
                )) + spec_replace_all(h@.skip(i + 1), pat@, to@));
            }
            i += 1;
        }
    }
    proof {
        assert(h@.skip(n as int) =~= Seq::<u8>::empty());
        assert(spec_replace_all(h@.skip(n as int), pat@, to@) == Seq::<u8>::empty());
        assert(r@ + Seq::<u8>::empty() =~= r@);
    }
    r
}

/// Index of the first occurrence of `pat` at or after `from`, if any.
pub open spec fn spec_find(h: Seq<u8>, pat: Seq<u8>, from: nat) -> Option<nat>
    decreases h.len() - from,
{
    if pat.len() == 0 || from + pat.len() > h.len() {
        None
    } else if h.subrange(from as int, from + pat.len() as int) == pat {
        Some(from)
    } else {
        spec_find(h, pat, from + 1)
    }
}

pub proof fn lemma_spec_find_props(h: Seq<u8>, pat: Seq<u8>, from: nat)
    requires
        pat.len() > 0,
    ensures
        match spec_find(h, pat, from) {
            Some(i) => from <= i && occurs_at(h, pat, i as int) && forall|j: int|
                from <= j < i ==> !occurs_at(h, pat, j),
            None => forall|j: int| from <= j ==> !occurs_at(h, pat, j),
        },
    decreases h.len() - from,
{
    if from + pat.len() > h.len() {
        assert forall|j: int| from <= j implies !occurs_at(h, pat, j) by {
            assert(!(j + pat.len() <= h.len()));
        }
    } else if h.subrange(from as int, from + pat.len() as int) == pat {
    } else {
        lemma_spec_find_props(h, pat, from + 1);
        assert(!occurs_at(h, pat, from as int));
    }
}

/// Replaces the first occurrence of `pat` at or after `pos`, leaving the
/// prefix before `pos` untouched; without an occurrence, the input is
/// returned unchanged.
pub fn replace_first_from(h: &Vec<u8>, pos: usize, pat: &Vec<u8>, to: &Vec<u8>) -> (r: Vec<u8>)
    requires
        pat@.len() > 0,
    ensures
        r@ == (match spec_find(h@, pat@, pos as nat) {
            Some(i) => h@.subrange(0, i as int) + to@ + h@.skip(i + pat@.len() as int),
            None => h@,
        }),
{
    proof {
        lemma_spec_find_props(h@, pat@, pos as nat);
    }
    match find_from(h, pat, pos) {
        Some(i) => {
            proof {
                match spec_find(h@, pat@, pos as nat) {
                    Some(k) => {
                        if k < i {
                            assert(occurs_at(h@, pat@, k as int));
                        } else if i < k {
                            assert(!occurs_at(h@, pat@, i as int));
                        }
                    },
                    None => {
                        assert(!occurs_at(h@, pat@, i as int));
                    },
                }
            }
            let hn = h.len();
            let mut r = subvec(h, 0, i);
            push_all(&mut r, to);
            let tail = subvec(h, i + pat.len(), hn);
            push_all(&mut r, &tail);
            proof {
                assert(h@.subrange(i + pat@.len(), h@.len() as int) =~= h@.skip(i + pat@.len() as int));
            }
            r
        },
        None => {
            proof {
                match spec_find(h@, pat@, pos as nat) {
                    Some(k) => {
                        assert(occurs_at(h@, pat@, k as int));
                    },
                    None => {},
                }
            }
            h.clone()
        },
    }
}

/// ASCII space, tab or carriage return.
pub open spec fn is_space(b: u8) -> bool {
    b == 32 || b == 9 || b == 13
}

/// The input without leading and trailing blanks.
pub open spec fn spec_trim(l: Seq<u8>) -> Seq<u8> {
    spec_trim_end(spec_trim_start(l))
}

pub open spec fn spec_trim_start(l: Seq<u8>) -> Seq<u8>
    decreases l.len(),
{
    if l.len() > 0 && is_space(l[0]) {
        spec_trim_start(l.skip(1))
    } else {
        l
    }
}

pub open spec fn spec_trim_end(l: Seq<u8>) -> Seq<u8>
    decreases l.len(),
{
    if l.len() > 0 && is_space(l[l.len() - 1]) {
        spec_trim_end(l.drop_last())
    } else {
        l
    }
}

proof fn lemma_trim_start_skip(l: Seq<u8>, a: int)
    requires
        0 <= a <= l.len(),
        forall|j: int| 0 <= j < a ==> is_space(l[j]),
        a == l.len() || !is_space(l[a]),
    ensures
        spec_trim_start(l) == l.skip(a),
    decreases a,
{
    if a == 0 {
        assert(l.skip(0) =~= l);
    } else {
        assert(is_space(l[0]));
        lemma_trim_start_skip(l.skip(1), a - 1);
        assert(l.skip(1).skip(a - 1) =~= l.skip(a));
    }
}

proof fn lemma_trim_end_take(l: Seq<u8>, b: int)
    requires
        0 <= b <= l.len(),
        forall|j: int| b <= j < l.len() ==> is_space(l[j]),
        b == 0 || !is_space(l[b - 1]),
    ensures
        spec_trim_end(l) == l.take(b),
    decreases l.len() - b,
{
    if b == l.len() {
        assert(l.take(b) =~= l);
    } else {
        assert(is_space(l[l.len() - 1]));
        lemma_trim_end_take(l.drop_last(), b);
        assert(l.drop_last().take(b) =~= l.take(b));
    }
}

/// Lines of a text, split on line feeds, with one trailing carriage return
/// per line removed.
pub open spec fn spec_split_lines(h: Seq<u8>) -> Seq<Seq<u8>> {
    spec_split_raw(h).map_values(|l: Seq<u8>| spec_strip_cr(l))
}

pub open spec fn spec_strip_cr(l: Seq<u8>) -> Seq<u8> {
    if l.len() > 0 && l[l.len() - 1] == 13 {
        l.drop_last()
    } else {
        l
    }
}

pub open spec fn spec_split_raw(h: Seq<u8>) -> Seq<Seq<u8>>
    decreases h.len(),
{
    if h.len() == 0 {
        seq![Seq::<u8>::empty()]
    } else if h[0] == 10 {
        seq![Seq::<u8>::empty()] + spec_split_raw(h.skip(1))
    } else {
        let rest = spec_split_raw(h.skip(1));
        seq![seq![h[0]] + rest[0]] + rest.skip(1)
    }
}

proof fn lemma_split_raw_nonempty(h: Seq<u8>)
    ensures
        spec_split_raw(h).len() >= 1,
    decreases h.len(),
{
    if h.len() > 0 {
        lemma_split_raw_nonempty(h.skip(1))
    }
}

pub fn split_lines(h: &Vec<u8>) -> (r: Vec<Vec<u8>>)
    ensures
        r.deep_view() == spec_split_lines(h@),
{
    let n = h.len();
    let mut lines: Vec<Vec<u8>> = Vec::new();
    let mut cur: Vec<u8> = Vec::new();
    let ghost mut raw_done: Seq<Seq<u8>> = Seq::empty();
    proof {
        assert(h@.skip(0) =~= h@);
        lemma_split_raw_nonempty(h@);
        let s = spec_split_raw(h@);
        assert(Seq::<u8>::empty() + s[0] =~= s[0]);
        assert(raw_done + (seq![Seq::<u8>::empty() + s[0]] + s.skip(1)) =~= s);
    }
    let mut i: usize = 0;
    while i < n
        invariant
            n == h@.len(),
            i <= n,
            spec_split_raw(h@.skip(i as int)).len() >= 1,
            spec_split_raw(h@) == raw_done + (seq![cur@ + spec_split_raw(h@.skip(i as int))[0]]
                + spec_split_raw(h@.skip(i as int)).skip(1)),
            lines.deep_view() == raw_done.map_values(|l: Seq<u8>| spec_strip_cr(l)),
        decreases n - i,
    {
        let ghost s = spec_split_raw(h@.skip(i as int));
        proof {
            lemma_skip_skip(h@, i as int, 1);
            lemma_split_raw_nonempty(h@.skip(i + 1));
        }
        let b = h[i];
        if b == 10 {
            let ghost cur0 = cur@;
            let ghost lines0 = lines.deep_view();
            let finished = strip_cr(&cur);
            lines.push(finished);
            cur = Vec::new();
            proof {
                let s1 = spec_split_raw(h@.skip(i + 1));
                assert(s == seq![Seq::<u8>::empty()] + s1);
                assert(s[0] =~= Seq::<u8>::empty());
                assert(s.skip(1) =~= s1);
                assert(cur0 + s[0] =~= cur0);
                raw_done = raw_done.push(cur0);
                assert(Seq::<u8>::empty() + s1[0] =~= s1[0]);
                assert(spec_split_raw(h@) =~~= raw_done + (seq![cur@ + s1[0]] + s1.skip(1)));
                assert(lines.deep_view() =~~= lines0.push(spec_strip_cr(cur0)));
                assert(lines.deep_view() =~~= raw_done.map_values(|l: Seq<u8>| spec_strip_cr(l)));
            }
        } else {
            let ghost cur0 = cur@;
            cur.push(b);
            proof {
                let s1 = spec_split_raw(h@.skip(i + 1));
                assert(h@.skip(i as int)[0] == h@[i as int]);
                assert(s == seq![seq![h@[i as int]] + s1[0]] + s1.skip(1));
                assert(s[0] == seq![h@[i as int]] + s1[0]);
                assert(s.skip(1) =~= s1.skip(1));
                assert(cur@ + s1[0] =~= cur0 + s[0]);
                assert(spec_split_raw(h@) =~~= raw_done + (seq![cur@ + s1[0]] + s1.skip(1)));
            }
        }
        i += 1;
    }
    let ghost lines0 = lines.deep_view();
    let finished = strip_cr(&cur);
    lines.push(finished);
    proof {
        let s = spec_split_raw(h@.skip(n as int));
        assert(h@.skip(n as int) =~= Seq::<u8>::empty());
        assert(s =~= seq![Seq::<u8>::empty()]);
        assert(cur@ + s[0] =~= cur@);
        assert(s.skip(1) =~= Seq::<Seq<u8>>::empty());
        assert(spec_split_raw(h@) =~~= raw_done.push(cur@));
        assert(lines.deep_view() =~~= lines0.push(spec_strip_cr(cur@)));
        assert(lines.deep_view() =~~= (raw_done.push(cur@)).map_values(
            |l: Seq<u8>| spec_strip_cr(l),
        ));
    }
    lines
}

fn strip_cr(l: &Vec<u8>) -> (r: Vec<u8>)
    ensures
        r@ == spec_strip_cr(l@),
{
    let n = l.len();
    if n > 0 && l[n - 1] == 13 {
        let r = subvec(l, 0, n - 1);
        proof {
            assert(l@.subrange(0, n - 1) =~= l@.drop_last());
        }
        r
    } else {
        l.clone()
    }
}

pub fn trim(l: &Vec<u8>) -> (r: Vec<u8>)
    ensures
        r@ == spec_trim(l@),
{
    let n = l.len();
    let mut a: usize = 0;
    while a < n && (l[a] == 32 || l[a] == 9 || l[a] == 13)
        invariant
            n == l@.len(),
            a <= n,
            forall|j: int| 0 <= j < a ==> is_space(l@[j]),
        decreases n - a,
    {
        a += 1;
    }
    let mut b: usize = n;
    while b > a && (l[b - 1] == 32 || l[b - 1] == 9 || l[b - 1] == 13)
        invariant
            n == l@.len(),
            a <= b <= n,
            forall|j: int| b <= j < n ==> is_space(l@[j]),
        decreases b,
    {
        b -= 1;
    }
    let r = subvec(l, a, b);
    proof {
        lemma_trim_start_skip(l@, a as int);
        let m = l@.skip(a as int);
        lemma_trim_end_take(m, b - a);
        assert(m.take(b - a) =~= l@.subrange(a as int, b as int));
    }
    r
}

/// ASCII decimal digit.
pub open spec fn is_digit(b: u8) -> bool {
    48 <= b <= 57
}

pub open spec fn all_digits(s: Seq<u8>) -> bool {
    forall|i: int| 0 <= i < s.len() ==> is_digit(s[i])
}

/// Numeric value of a digit string.
pub open spec fn digits_val(s: Seq<u8>) -> int
    decreases s.len(),
{
    if s.len() == 0 {
        0
    } else {
        digits_val(s.drop_last()) * 10 + (s[s.len() - 1] - 48)
    }
}

proof fn lemma_digits_val_nonneg(s: Seq<u8>)
    requires
        all_digits(s),
    ensures
        digits_val(s) >= 0,
    decreases s.len(),
{
    if s.len() > 0 {
        assert(all_digits(s.drop_last()));
        lemma_digits_val_nonneg(s.drop_last());
    }
}

proof fn lemma_digits_val_take_step(s: Seq<u8>, j: int)
    requires
        0 <= j < s.len(),
    ensures
        digits_val(s.take(j + 1)) == digits_val(s.take(j)) * 10 + (s[j] - 48),
{
    assert(s.take(j + 1).drop_last() =~= s.take(j));
    assert(s.take(j + 1)[j] == s[j]);
}

proof fn lemma_digits_val_take_mono(s: Seq<u8>, j: int)
    requires
        all_digits(s),
        0 <= j <= s.len(),
    ensures
        digits_val(s.take(j)) <= digits_val(s),
    decreases s.len() - j,
{
    if j == s.len() {
        assert(s.take(j) =~= s);
    } else {
        lemma_digits_val_take_step(s, j);
        assert(all_digits(s.take(j)));
        lemma_digits_val_nonneg(s.take(j));
        lemma_digits_val_take_mono(s, j + 1);
    }
}

/// Parses an unsigned decimal number; `None` on an empty string, a
/// non-digit, or overflow.
pub fn parse_u64(s: &Vec<u8>) -> (r: Option<u64>)
    ensures
        match r {
            Some(v) => s@.len() > 0 && all_digits(s@) && v == digits_val(s@),
            None => s@.len() == 0 || !all_digits(s@) || digits_val(s@) > u64::MAX,
        },
{
    let n = s.len();
    if n == 0 {
        return None;
    }
    let mut val: u64 = 0;
    let mut i: usize = 0;
    proof {
        assert(s@.take(0) =~= Seq::<u8>::empty());
    }
    while i < n
        invariant
            n == s@.len(),
            i <= n,
            all_digits(s@.take(i as int)),
            val == digits_val(s@.take(i as int)),
        decreases n - i,
    {
        let b = s[i];
        if b < 48 || b > 57 {
            return None;
        }
        let d = (b - 48) as u64;
        proof {
            lemma_digits_val_take_step(s@, i as int);
        }
        if val > (u64::MAX - d) / 10 {
            proof {
                assert(digits_val(s@.take(i + 1)) > u64::MAX) by (nonlinear_arith)
                    requires
                        digits_val(s@.take(i + 1)) == val * 10 + d,
                        val > (u64::MAX - d) / 10,
                        0 <= d <= 9,
                ;
                if all_digits(s@) {
                    lemma_digits_val_take_mono(s@, i + 1);
                }
            }
            return None;
        }
        proof {
            assert(val * 10 + d <= u64::MAX) by (nonlinear_arith)
                requires
                    val <= (u64::MAX - d) / 10,
                    0 <= d <= 9,
            ;
        }
        val = val * 10 + d;
        i += 1;
    }
    proof {
        assert(s@.take(n as int) =~= s@);
    }
    Some(val)
}

/// Decimal rendering of an unsigned number, without leading zeroes.
pub open spec fn spec_u64_dec(x: nat) -> Seq<u8>
    decreases x,
{
    if x < 10 {
        seq![(48 + x) as u8]
    } else {
        spec_u64_dec(x / 10) + seq![(48 + x % 10) as u8]
    }
}

pub fn u64_to_dec(x: u64) -> (r: Vec<u8>)
    ensures
        r@ == spec_u64_dec(x as nat),
    decreases x,
{
    if x < 10 {
        let mut r: Vec<u8> = Vec::new();
        r.push(48 + (x as u8));
        proof {
            assert(r@ =~= spec_u64_dec(x as nat));
        }
        r
    } else {
        let mut r = u64_to_dec(x / 10);
        r.push(48 + ((x % 10) as u8));
        proof {
            assert(r@ =~= spec_u64_dec((x / 10) as nat) + seq![(48 + x as nat % 10) as u8]);
        }
        r
    }
}

/// Decimal rendering of a signed number.
pub open spec fn spec_i64_dec(x: int) -> Seq<u8> {
    if x >= 0 {
        spec_u64_dec(x as nat)
    } else {
        seq![45u8] + spec_u64_dec((-x) as nat)
    }
}

pub fn i64_to_dec(x: i64) -> (r: Vec<u8>)
    ensures
        r@ == spec_i64_dec(x as int),
{
    if x >= 0 {
        u64_to_dec(x as u64)
    } else {
        let up = x + 1;
        let mag_minus_1 = (-up) as u64;
        let mag = mag_minus_1 + 1;
        let mut r: Vec<u8> = Vec::new();
        r.push(45);
        let digits = u64_to_dec(mag);
        push_all(&mut r, &digits);
        proof {
            assert(mag == -(x as int));
            assert(r@ =~= seq![45u8] + spec_u64_dec((-(x as int)) as nat));
        }
        r
    }
}

/// Strict lexicographic byte order.
pub open spec fn lex_lt(a: Seq<u8>, b: Seq<u8>) -> bool
    decreases a.len(),
{
    if b.len() == 0 {
        false
    } else if a.len() == 0 {
        true
    } else if a[0] < b[0] {
        true
    } else if a[0] > b[0] {
        false
    } else {
        lex_lt(a.skip(1), b.skip(1))
    }
}

pub proof fn lemma_lex_irrefl(a: Seq<u8>)
    ensures
        !lex_lt(a, a),
    decreases a.len(),
{
    if a.len() > 0 {
        lemma_lex_irrefl(a.skip(1));
    }
}

pub proof fn lemma_lex_total(a: Seq<u8>, b: Seq<u8>)
    ensures
        lex_lt(a, b) || lex_lt(b, a) || a == b,
    decreases a.len(),
{
    if a.len() > 0 && b.len() > 0 && a[0] == b[0] {
        lemma_lex_total(a.skip(1), b.skip(1));
        if !lex_lt(a, b) && !lex_lt(b, a) {
            assert(a.skip(1) == b.skip(1));
            assert(a.len() == b.len());
            assert forall|i: int| 0 <= i < a.len() implies a[i] == b[i] by {
                if i > 0 {
                    assert(a[i] == a.skip(1)[i - 1]);
                    assert(b[i] == b.skip(1)[i - 1]);
                }
            }
            assert(a =~= b);
        }
    }
}

pub proof fn lemma_lex_trans(a: Seq<u8>, b: Seq<u8>, c: Seq<u8>)
    requires
        lex_lt(a, b),
        lex_lt(b, c),
    ensures
        lex_lt(a, c),
    decreases a.len(),
{
    if a.len() > 0 && b.len() > 0 && c.len() > 0 && a[0] == b[0] && b[0] == c[0] {
        lemma_lex_trans(a.skip(1), b.skip(1), c.skip(1));
    }
}

proof fn lemma_deep_view_index(keys: &Vec<Vec<u8>>, i: int)
    requires
        0 <= i < keys@.len(),
    ensures
        keys.deep_view()[i] == keys@[i]@,
{
    assert(keys.deep_view()[i] =~= keys@[i]@);
}

/// Strict total order on positions of a key list: by key, then by
/// position.  Sorting by this order is therefore a stable sort.
pub open spec fn idx_lt(keys: Seq<Seq<u8>>, i: int, j: int) -> bool {
    lex_lt(keys[i], keys[j]) || (keys[i] == keys[j] && i < j)
}

/// Whether some position of `r` holds the value `v`.
pub open spec fn seq_contains_val(r: Seq<usize>, v: int) -> bool {
    exists|k: int| 0 <= k < r.len() && r[k] == v
}

/// Insertion of a position into a stably-sorted position list.
pub open spec fn spec_insert_idx(keys: Seq<Seq<u8>>, s: Seq<usize>, v: usize) -> Seq<usize>
    decreases s.len(),
{
    if s.len() == 0 {
        seq![v]
    } else if lex_lt(keys[v as int], keys[s[0] as int]) {
        seq![v] + s
    } else {
        seq![s[0]] + spec_insert_idx(keys, s.skip(1), v)
    }
}

/// Stable sorted order of the positions `0..n`, as a function of the keys.
pub open spec fn spec_sort_idx(keys: Seq<Seq<u8>>, n: int) -> Seq<usize>
    decreases n,
{
    if n <= 0 {
        Seq::empty()
    } else {
        spec_insert_idx(keys, spec_sort_idx(keys, n - 1), (n - 1) as usize)
    }
}

proof fn lemma_insert_idx_at(keys: Seq<Seq<u8>>, s: Seq<usize>, v: usize, p: int)
    requires
        0 <= p <= s.len(),
        forall|k: int| 0 <= k < p ==> !lex_lt(keys[v as int], keys[(#[trigger] s[k]) as int]),
        p == s.len() || lex_lt(keys[v as int], keys[s[p] as int]),
    ensures
        spec_insert_idx(keys, s, v) == s.take(p) + seq![v] + s.skip(p),
    decreases s.len(),
{
    if s.len() == 0 {
        assert(s.take(0) + seq![v] + s.skip(0) =~= seq![v]);
    } else if p == 0 {
        assert(lex_lt(keys[v as int], keys[s[0] as int]));
        assert(s.take(0) + seq![v] + s.skip(0) =~= seq![v] + s);
    } else {
        assert(!lex_lt(keys[v as int], keys[s[0] as int]));
        assert forall|k: int| 0 <= k < p - 1 implies !lex_lt(
            keys[v as int],
            keys[(#[trigger] s.skip(1)[k]) as int],
        ) by {
            assert(s.skip(1)[k] == s[k + 1]);
        }
        if p - 1 < s.skip(1).len() {
            assert(s.skip(1)[p - 1] == s[p]);
        }
        lemma_insert_idx_at(keys, s.skip(1), v, p - 1);
        assert(seq![s[0]] + (s.skip(1).take(p - 1) + seq![v] + s.skip(1).skip(p - 1)) =~= s.take(p)
            + seq![v] + s.skip(p));
    }
}

/// Stable sorted order of the positions `0..keys.len()`.
pub fn sort_indices(keys: &Vec<Vec<u8>>) -> (r: Vec<usize>)
    ensures
        r@ == spec_sort_idx(keys.deep_view(), keys@.len() as int),
        r@.len() == keys@.len(),
        forall|k: int| 0 <= k < r@.len() ==> r@[k] < keys@.len(),
        forall|k1: int, k2: int|
            0 <= k1 < k2 < r@.len() ==> idx_lt(keys.deep_view(), r@[k1] as int, r@[k2] as int),
        forall|v: int| 0 <= v < keys@.len() ==> #[trigger] seq_contains_val(r@, v),
{
    let ghost kv = keys.deep_view();
    let n = keys.len();
    let mut out: Vec<usize> = Vec::new();
    let mut v: usize = 0;
    while v < n
        invariant
            n == keys@.len(),
            kv == keys.deep_view(),
            kv.len() == n,
            v <= n,
            out@ == spec_sort_idx(kv, v as int),
            out@.len() == v,
            forall|k: int| 0 <= k < out@.len() ==> out@[k] < v,
            forall|k1: int, k2: int|
                0 <= k1 < k2 < out@.len() ==> idx_lt(kv, out@[k1] as int, out@[k2] as int),
            forall|w: int| 0 <= w < v ==> #[trigger] seq_contains_val(out@, w),
        decreases n - v,
    {
        // Scan for the first element that must come after `v`: stability
        // keeps `v` after every already-placed equal key.
        let mut p: usize = 0;
        loop
            invariant
                n == keys@.len(),
                kv == keys.deep_view(),
                kv.len() == n,
                v < n,
                out@.len() == v,
                forall|k: int| 0 <= k < out@.len() ==> out@[k] < v,
                forall|k1: int, k2: int|
                    0 <= k1 < k2 < out@.len() ==> idx_lt(kv, out@[k1] as int, out@[k2] as int),
                p <= out@.len(),
                forall|k: int| 0 <= k < p ==> idx_lt(kv, out@[k] as int, v as int),
                forall|k: int|
                    0 <= k < p ==> !lex_lt(kv[v as int], kv[(#[trigger] out@[k]) as int]),
            ensures
                p <= out@.len(),
                forall|k: int| 0 <= k < p ==> idx_lt(kv, out@[k] as int, v as int),
                forall|k: int|
                    0 <= k < p ==> !lex_lt(kv[v as int], kv[(#[trigger] out@[k]) as int]),
                p == out@.len() || lex_lt(kv[v as int], kv[out@[p as int] as int]),
                forall|k: int| p <= k < out@.len() ==> idx_lt(kv, v as int, out@[k] as int),
            decreases out@.len() - p,
        {
            if p >= out.len() {
                break ;
            }
            let e = out[p];
            proof {
                lemma_deep_view_index(keys, e as int);
                lemma_deep_view_index(keys, v as int);
            }
            if lex_lt_exec(&keys[v], &keys[e]) {
                proof {
                    assert(idx_lt(kv, v as int, out@[p as int] as int));
                    assert forall|k: int| p <= k < out@.len() implies idx_lt(
                        kv,
                        v as int,
                        out@[k] as int,
                    ) by {
                        if k > p {
                            assert(idx_lt(kv, out@[p as int] as int, out@[k] as int));
                            if lex_lt(kv[out@[p as int] as int], kv[out@[k] as int]) {
                                lemma_lex_trans(
                                    kv[v as int],
                                    kv[out@[p as int] as int],
                                    kv[out@[k] as int],
                                );
                            }
                        }
                    }
                }
                break ;
            }
            proof {
                lemma_lex_total(kv[e as int], kv[v as int]);
                assert(idx_lt(kv, out@[p as int] as int, v as int));
            }
            p += 1;
        }
        let ghost out0 = out@;
        out.insert(p, v);
        proof {
            out0.insert_ensures(p as int, v);
            assert(out@ == out0.insert(p as int, v));
            lemma_insert_idx_at(kv, out0, v, p as int);
            assert(out@ =~= out0.take(p as int) + seq![v] + out0.skip(p as int));
            assert(out@ == spec_sort_idx(kv, v + 1));
            assert forall|k1: int, k2: int|
                0 <= k1 < k2 < out@.len() implies idx_lt(kv, out@[k1] as int, out@[k2] as int) by {
                if k2 < p {
                } else if k1 < p && k2 == p {
                    assert(out@[k1] == out0[k1] && out@[k2] == v);
                } else if k1 < p && k2 > p {
                    assert(out@[k1] == out0[k1] && out@[k2] == out0[k2 - 1]);
                } else if k1 == p {
                    assert(out@[k1] == v && out@[k2] == out0[k2 - 1]);
                } else {
                    assert(out@[k1] == out0[k1 - 1] && out@[k2] == out0[k2 - 1]);
                }
            }
            assert forall|w: int| 0 <= w < v + 1 implies #[trigger] seq_contains_val(
                out@,
                w,
            ) by {
                if w == v {
                    assert(out@[p as int] == v);
                } else {
                    assert(seq_contains_val(out0, w));
                    let k0 = choose|k0: int| 0 <= k0 < out0.len() && out0[k0] == w;
                    if k0 < p {
                        assert(out@[k0] == w);
                    } else {
                        assert(out@[k0 + 1] == w);
                    }
                }
            }
        }
        v += 1;
    }
    out
}

/// Executable form of `lex_lt`.
pub fn lex_lt_exec(a: &Vec<u8>, b: &Vec<u8>) -> (r: bool)
    ensures
        r == lex_lt(a@, b@),
{
    let an = a.len();
    let bn = b.len();
    let mut i: usize = 0;
    proof {
        assert(a@.skip(0) =~= a@);
        assert(b@.skip(0) =~= b@);
    }
    while i < an && i < bn
        invariant
            an == a@.len(),
            bn == b@.len(),
            i <= an,
            i <= bn,
            forall|j: int| 0 <= j < i ==> a@[j] == b@[j],
            lex_lt(a@, b@) == lex_lt(a@.skip(i as int), b@.skip(i as int)),
        decreases an - i,
    {
        let x = a[i];
        let y = b[i];
        if x < y {
            proof {
                assert(a@.skip(i as int)[0] == x && b@.skip(i as int)[0] == y);
            }
            return true;
        }
        if x > y {
            proof {
                assert(a@.skip(i as int)[0] == x && b@.skip(i as int)[0] == y);
            }
            return false;
        }
        proof {
            assert(a@.skip(i as int)[0] == x && b@.skip(i as int)[0] == y);
            assert(a@.skip(i as int).skip(1) =~= a@.skip(i + 1));
            assert(b@.skip(i as int).skip(1) =~= b@.skip(i + 1));
        }
        i += 1;
    }
    let r = an < bn;
    proof {
        let sa = a@.skip(i as int);
        let sb = b@.skip(i as int);
        if i == an {
            assert(sa.len() == 0);
            if i < bn {
                assert(sb.len() > 0);
            } else {
                assert(sb.len() == 0);
            }
        } else {
            assert(i == bn);
            assert(sb.len() == 0);
        }
    }
    r
}

/// Parses a signed decimal number.
pub open spec fn spec_parse_i64(s: Seq<u8>) -> Option<int> {
    if s.len() > 0 && s[0] == 45 {
        match spec_parse_u64_val(s.skip(1)) {
            Some(v) => if -v >= i64::MIN {
                Some(-v)
            } else {
                None
            },
            None => None,
        }
    } else {
        match spec_parse_u64_val(s) {
            Some(v) => if v <= i64::MAX {
                Some(v)
            } else {
                None
            },
            None => None,
        }
    }
}

/// The value of an unsigned digit string that fits a machine word.
pub open spec fn spec_parse_u64_val(s: Seq<u8>) -> Option<int> {
    if s.len() > 0 && all_digits(s) && digits_val(s) <= u64::MAX {
        Some(digits_val(s))
    } else {
        None
    }
}

pub fn parse_i64(s: &Vec<u8>) -> (r: Option<i64>)
    ensures
        match r {
            Some(v) => spec_parse_i64(s@) == Some(v as int),
            None => spec_parse_i64(s@) is None,
        },
{
    let n = s.len();
    if n > 0 && s[0] == 45 {
        let rest = subvec(s, 1, n);
        proof {
            assert(rest@ =~= s@.skip(1));
        }
        match parse_u64(&rest) {
            Some(v) => {
                if v <= 9223372036854775808u64 {
                    if v == 9223372036854775808u64 {
                        Some(i64::MIN)
                    } else {
                        Some(-(v as i64))
                    }
                } else {
                    None
                }
            },
            None => None,
        }
    } else {
        match parse_u64(s) {
            Some(v) => {
                if v <= i64::MAX as u64 {
                    Some(v as i64)
                } else {
                    None
                }
            },
            None => None,
        }
    }
}

} // verus!