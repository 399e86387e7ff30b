use vstd::prelude::*;
use vstd::string::*;

verus! {

/// The characters after the last `/` of `s` (all of `s` if none).
pub open spec fn spec_after_slash(s: Seq<char>) -> Seq<char>
    decreases s.len(),
{
    if s.len() == 0 {
        s
    } else if s.last() == '/' {
        Seq::<char>::empty()
    } else {
        spec_after_slash(s.drop_last()) + seq![s.last()]
    }
}

/// The characters before the first `?` of `s` (all of `s` if none).
pub open spec fn spec_before_query(s: Seq<char>) -> Seq<char>
    decreases s.len(),
{
    if s.len() == 0 {
        s
    } else if s[0] == '?' {
        Seq::<char>::empty()
    } else {
        seq![s[0]] + spec_before_query(s.skip(1))
    }
}

/// The file name derived from a fetch location: the last path segment with
/// its query stripped, or the placeholder where that leaves nothing.
pub open spec fn spec_derive_name(s: Seq<char>) -> Seq<char> {
    let t = spec_before_query(spec_after_slash(s));
    if t.len() == 0 {
        "image.jpg"@
    } else {
        t
    }
}

proof fn lemma_after_slash_at(s: Seq<char>, i: int)
    requires
        0 <= i < s.len(),
        s[i] == '/',
        forall|j: int| i < j < s.len() ==> s[j] != '/',
    ensures
        spec_after_slash(s) == s.subrange(i + 1, s.len() as int),
    decreases s.len(),
{
    if i == s.len() - 1 {
        assert(s.subrange(i + 1, s.len() as int) =~= Seq::<char>::empty());
    } else {
        assert(s.last() != '/');
        lemma_after_slash_at(s.drop_last(), i);
        assert(s.subrange(i + 1, s.len() as int) =~= s.drop_last().subrange(
            i + 1,
            s.len() - 1,
        ) + seq![s.last()]);
    }
}

proof fn lemma_after_slash_none(s: Seq<char>)
    requires
        forall|j: int| 0 <= j < s.len() ==> s[j] != '/',
    ensures
        spec_after_slash(s) == s,
    decreases s.len(),
{
    if s.len() > 0 {
        lemma_after_slash_none(s.drop_last());
        assert(s =~= s.drop_last() + seq![s.last()]);
    }
}

proof fn lemma_before_query_at(s: Seq<char>, i: int)
    requires
        0 <= i < s.len(),
        s[i] == '?',
        forall|j: int| 0 <= j < i ==> s[j] != '?',
    ensures
        spec_before_query(s) == s.subrange(0, i),
    decreases s.len(),
{
    if i == 0 {
        assert(s.subrange(0, 0) =~= Seq::<char>::empty());
    } else {
        lemma_before_query_at(s.skip(1), i - 1);
        assert(s.subrange(0, i) =~= seq![s[0]] + s.skip(1).subrange(0, i - 1));
    }
}

proof fn lemma_before_query_none(s: Seq<char>)
    requires
        forall|j: int| 0 <= j < s.len() ==> s[j] != '?',
    ensures
        spec_before_query(s) == s,
    decreases s.len(),
{
    if s.len() > 0 {
        lemma_before_query_none(s.skip(1));
        assert(s =~= seq![s[0]] + s.skip(1));
    }
}

/// Derives the local file name for one fetch location: the last `/`-separated
/// segment, query stripped, with `image.jpg` standing in where the location
/// has no usable segment.
pub fn derive_filename(url: &str) -> (r: String)
    ensures
        r@ == spec_derive_name(url@),
{
    let n = url.unicode_len();
    let mut start: usize = 0;
    let mut i: usize = 0;
    while i < n
        invariant
            i <= n,
            n == url@.len(),
            start <= i,
            start == 0 ==> forall|j: int| 0 <= j < i ==> url@[j] != '/',
            start > 0 ==> url@[start - 1] == '/' && (forall|j: int|
                start <= j < i ==> url@[j] != '/'),
        decreases n - i,
    {
        if url.get_char(i) == '/' {
            start = i + 1;
        }
        i = i + 1;
    }
    let ghost seg = url@.subrange(start as int, n as int);
    proof {
        if start == 0 {
            lemma_after_slash_none(url@);
            assert(seg =~= url@);
        } else {
            lemma_after_slash_at(url@, start - 1);
        }
        assert(spec_after_slash(url@) == seg);
    }
    let mut end: usize = n;
    let mut k: usize = start;
    while k < end
        invariant
            start <= k,
            k <= end,
            n == url@.len(),
            seg == url@.subrange(start as int, n as int),
            end == n || (start <= end < n && url@[end as int] == '?' && forall|j: int|
                start <= j < k ==> url@[j] != '?'),
            end == n ==> forall|j: int| start <= j < k ==> url@[j] != '?',
        decreases end - k,
    {
        if url.get_char(k) == '?' {
            end = k;
        } else {
            k = k + 1;
        }
    }
    proof {
        if end == n {
            lemma_before_query_none(seg);
            assert(forall|j: int| 0 <= j < seg.len() ==> seg[j] == url@[start + j]);
        } else {
            lemma_before_query_at(seg, end - start);
            assert(forall|j: int| 0 <= j < seg.len() ==> seg[j] == url@[start + j]);
        }
        assert(spec_before_query(seg) =~= url@.subrange(start as int, end as int));
    }
    if end == start {
        let r = String::from_str("image.jpg");
        return r;
    }
    let piece = url.substring_char(start, end);
    String::from_str(piece)
}

/// Derives the local file names for a whole batch, in input order.
pub fn derive_filenames(urls: &Vec<String>) -> (r: Vec<String>)
    ensures
        r@.len() == urls@.len(),
        forall|i: int| 0 <= i < urls@.len() ==> r@[i]@ == spec_derive_name(urls@[i]@),
{
    let mut out: Vec<String> = Vec::new();
    let mut i: usize = 0;
    while i < urls.len()
        invariant
            i <= urls@.len(),
            out@.len() == i,
            forall|j: int| 0 <= j < i ==> out@[j]@ == spec_derive_name(urls@[j]@),
        decreases urls@.len() - i,
    {
        let name = derive_filename(urls[i].as_str());
        out.push(name);
        i = i + 1;
    }
    out
}

} // verus!
