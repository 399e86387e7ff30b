use vstd::prelude::*;
use vstd::string::*;

verus! {

/// `pat` occurs in `s` starting at index `i`.
pub open spec fn occurs_at(s: Seq<char>, pat: Seq<char>, i: int) -> bool {
    0 <= i && i + pat.len() <= s.len() && s.subrange(i, i + pat.len()) == pat
}

/// `pat` occurs somewhere in `s`.
pub open spec fn contains_sub(s: Seq<char>, pat: Seq<char>) -> bool {
    exists|i: int| occurs_at(s, pat, i)
}

/// The least index at which `pat` occurs in `s`, if any.
pub open spec fn spec_find(s: Seq<char>, pat: Seq<char>) -> Option<int> {
    if contains_sub(s, pat) {
        Some(
            choose|i: int|
                occurs_at(s, pat, i) && (forall|j: int| 0 <= j < i ==> !occurs_at(s, pat, j)),
        )
    } else {
        None
    }
}

/// Whether `pat` occurs in `s` at the fixed index `i`.
pub fn match_at(s: &str, pat: &str, i: usize) -> (r: bool)
    requires
        i <= s@.len(),
    ensures
        r == occurs_at(s@, pat@, i as int),
{
    let n = s.unicode_len();
    let m = pat.unicode_len();
    if m > n - i {
        proof {
            assert(!occurs_at(s@, pat@, i as int));
        }
        return false;
    }
    let mut k: usize = 0;
    while k < m
        invariant
            k <= m,
            i + m <= n,
            n == s@.len(),
            m == pat@.len(),
            forall|j: int| 0 <= j < k ==> s@[i + j] == pat@[j],
        decreases m - k,
    {
        if s.get_char(i + k) != pat.get_char(k) {
            proof {
                assert(s@.subrange(i as int, i + m) != pat@) by {
                    assert(s@.subrange(i as int, i + m)[k as int] != pat@[k as int]);
                }
            }
            return false;
        }
        k = k + 1;
    }
    proof {
        assert(s@.subrange(i as int, i + m) =~= pat@);
    }
    true
}

/// A minimal occurrence index exists wherever any occurrence does.
proof fn lemma_first_occurrence(s: Seq<char>, pat: Seq<char>, i: int)
    requires
        occurs_at(s, pat, i),
        forall|j: int| 0 <= j < i ==> !occurs_at(s, pat, j),
    ensures
        spec_find(s, pat) == Some(i),
{
    assert(contains_sub(s, pat));
    let w = choose|w: int|
        occurs_at(s, pat, w) && (forall|j: int| 0 <= j < w ==> !occurs_at(s, pat, j));
    assert(occurs_at(s, pat, w) && (forall|j: int| 0 <= j < w ==> !occurs_at(s, pat, j)));
    if w < i {
        assert(!occurs_at(s, pat, w));
    }
    if i < w {
        assert(!occurs_at(s, pat, i));
    }
}

proof fn lemma_exists_first(s: Seq<char>, pat: Seq<char>, w: int)
    requires
        occurs_at(s, pat, w),
    ensures
        exists|i: int|
            occurs_at(s, pat, i) && (forall|j: int| 0 <= j < i ==> !occurs_at(s, pat, j)),
    decreases w,
{
    if exists|j: int| 0 <= j < w && occurs_at(s, pat, j) {
        let j = choose|j: int| 0 <= j < w && occurs_at(s, pat, j);
        lemma_exists_first(s, pat, j);
    } else {
        assert(occurs_at(s, pat, w) && (forall|j: int| 0 <= j < w ==> !occurs_at(s, pat, j)));
    }
}

/// What a found index means: a first occurrence; and a missing one, absence.
pub proof fn lemma_find_props(s: Seq<char>, pat: Seq<char>)
    ensures
        (spec_find(s, pat) matches Some(i) ==> occurs_at(s, pat, i) && (forall|j: int|
            0 <= j < i ==> !occurs_at(s, pat, j))),
        spec_find(s, pat) is None ==> !contains_sub(s, pat),
{
    if contains_sub(s, pat) {
        let w = choose|i: int| occurs_at(s, pat, i);
        lemma_exists_first(s, pat, w);
    }
}

/// The index of the first occurrence of `pat` in `s`.
pub fn find_sub(s: &str, pat: &str) -> (r: Option<usize>)
    ensures
        match r {
            Some(i) => spec_find(s@, pat@) == Some(i as int),
            None => spec_find(s@, pat@) is None,
        },
{
    let n = s.unicode_len();
    let m = pat.unicode_len();
    if m == 0 {
        proof {
            assert(s@.subrange(0, 0) =~= pat@);
            lemma_first_occurrence(s@, pat@, 0);
        }
        return Some(0);
    }
    if m > n {
        proof {
            assert(forall|j: int| !occurs_at(s@, pat@, j));
        }
        return None;
    }
    let mut i: usize = 0;
    while n - i >= m
        invariant
            i <= n - m + 1,
            1 <= m <= n,
            n == s@.len(),
            m == pat@.len(),
            forall|j: int| 0 <= j < i ==> !occurs_at(s@, pat@, j),
        decreases n - i,
    {
        if match_at(s, pat, i) {
            proof {
                lemma_first_occurrence(s@, pat@, i as int);
            }
            return Some(i);
        }
        i = i + 1;
    }
    proof {
        assert(forall|j: int| !occurs_at(s@, pat@, j)) by {
            assert(forall|j: int| j > n - m ==> !occurs_at(s@, pat@, j));
        }
    }
    None
}

/// Whether `s` contains `pat` anywhere.
pub fn contains_str(s: &str, pat: &str) -> (r: bool)
    ensures
        r == contains_sub(s@, pat@),
{
    match find_sub(s, pat) {
        Some(_) => true,
        None => false,
    }
}

/// `s` begins with `pat`.
pub open spec fn starts_with_chars(s: Seq<char>, pat: Seq<char>) -> bool {
    pat.len() <= s.len() && s.subrange(0, pat.len() as int) == pat
}

/// Relies on String::push: appends exactly the one character.
#[verifier::external_body]
pub(crate) fn push_char(s: &mut String, c: char)
    ensures
        final(s)@ == old(s)@ + seq![c],
{
    s.push(c);
}

/// Whether `s` begins with `pat`.
pub fn starts_with_str(s: &str, pat: &str) -> (r: bool)
    ensures
        r == starts_with_chars(s@, pat@),
{
    let r = match_at(s, pat, 0);
    proof {
        assert(occurs_at(s@, pat@, 0) == (pat@.len() <= s@.len() && s@.subrange(
            0,
            pat@.len() as int,
        ) == pat@));
    }
    r
}

/// Lexicographic order on character sequences, by scalar value.
pub open spec fn chars_le(a: Seq<char>, b: Seq<char>) -> bool
    decreases a.len(),
{
    if a.len() == 0 {
        true
    } else if b.len() == 0 {
        false
    } else if (a[0] as u32) < (b[0] as u32) {
        true
    } else if (a[0] as u32) == (b[0] as u32) {
        chars_le(a.skip(1), b.skip(1))
    } else {
        false
    }
}

/// The order is total.
pub proof fn lemma_chars_le_total(a: Seq<char>, b: Seq<char>)
    ensures
        chars_le(a, b) || chars_le(b, a),
    decreases a.len(),
{
    if a.len() > 0 && b.len() > 0 && (a[0] as u32) == (b[0] as u32) {
        lemma_chars_le_total(a.skip(1), b.skip(1));
    }
}

/// The order is transitive.
pub proof fn lemma_chars_le_trans(a: Seq<char>, b: Seq<char>, c: Seq<char>)
    requires
        chars_le(a, b),
        chars_le(b, c),
    ensures
        chars_le(a, c),
    decreases a.len(),
{
    if a.len() > 0 && b.len() > 0 && c.len() > 0 && (a[0] as u32) == (b[0] as u32) && (b[0] as u32)
        == (c[0] as u32) {
        lemma_chars_le_trans(a.skip(1), b.skip(1), c.skip(1));
    }
}

/// The order is antisymmetric.
pub proof fn lemma_chars_le_antisym(a: Seq<char>, b: Seq<char>)
    requires
        chars_le(a, b),
        chars_le(b, a),
    ensures
        a == b,
    decreases a.len(),
{
    if a.len() > 0 && b.len() > 0 && (a[0] as u32) == (b[0] as u32) {
        lemma_chars_le_antisym(a.skip(1), b.skip(1));
        vstd::utf8::char_u32_cast(a[0], a[0] as u32);
        vstd::utf8::char_u32_cast(b[0], b[0] as u32);
        assert(a[0] == b[0]);
        assert(a.skip(1) == b.skip(1));
        assert forall|i: int| 0 <= i < a.len() implies a[i] == b[i] by {
            if i > 0 {
                assert(a[i] == a.skip(1)[i - 1]);
                assert(b[i] == b.skip(1)[i - 1]);
            }
        }
        assert(a =~= b);
    } else {
        assert(a =~= b);
    }
}

/// Three-way outcome of a string comparison.
pub enum CmpRes {
    Lt,
    Eq,
    Gt,
}

/// Compares two strings in the lexicographic order `chars_le`.
pub fn str_cmp(a: &str, b: &str) -> (r: CmpRes)
    ensures
        (r matches CmpRes::Eq) ==> a@ == b@,
        (r matches CmpRes::Lt) ==> chars_le(a@, b@) && a@ != b@,
        (r matches CmpRes::Gt) ==> chars_le(b@, a@) && a@ != b@,
{
    let na = a.unicode_len();
    let nb = b.unicode_len();
    let mut k: usize = 0;
    proof {
        assert(a@.skip(0) =~= a@);
        assert(b@.skip(0) =~= b@);
    }
    while k < na && k < nb
        invariant
            k <= na,
            k <= nb,
            na == a@.len(),
            nb == b@.len(),
            forall|j: int| 0 <= j < k ==> a@[j] == b@[j],
            chars_le(a@, b@) == chars_le(a@.skip(k as int), b@.skip(k as int)),
            chars_le(b@, a@) == chars_le(b@.skip(k as int), a@.skip(k as int)),
        decreases na - k,
    {
        let ca = a.get_char(k);
        let cb = b.get_char(k);
        proof {
            assert(a@.skip(k as int)[0] == ca);
            assert(b@.skip(k as int)[0] == cb);
            assert(a@.skip(k as int).skip(1) =~= a@.skip(k as int + 1));
            assert(b@.skip(k as int).skip(1) =~= b@.skip(k as int + 1));
        }
        if (ca as u32) < (cb as u32) {
            proof {
                assert(a@[k as int] != b@[k as int]);
            }
            return CmpRes::Lt;
        }
        if (ca as u32) > (cb as u32) {
            proof {
                assert(a@[k as int] != b@[k as int]);
            }
            return CmpRes::Gt;
        }
        k = k + 1;
    }
    if na == nb {
        proof {
            assert(a@ =~= b@);
        }
        CmpRes::Eq
    } else if na < nb {
        proof {
            assert(a@.skip(k as int).len() == 0);
            assert(b@.skip(k as int).len() > 0);
            assert(a@.len() != b@.len());
        }
        CmpRes::Lt
    } else {
        proof {
            assert(b@.skip(k as int).len() == 0);
            assert(a@.skip(k as int).len() > 0);
        }
        CmpRes::Gt
    }
}

} // verus!
