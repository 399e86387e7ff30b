use vstd::prelude::*;
use vstd::string::*;
use crate::textutil::CmpRes;
use crate::textutil::chars_le;
use crate::textutil::contains_str;
use crate::textutil::contains_sub;
use crate::textutil::find_sub;
use crate::textutil::lemma_chars_le_antisym;
use crate::textutil::lemma_chars_le_trans;
use crate::textutil::spec_find;
use crate::textutil::starts_with_chars;
use crate::textutil::starts_with_str;
use crate::textutil::str_cmp;

verus! {

/// The two attributes of one matched gallery element that can carry an
/// image location.
pub struct ElemSrc {
    pub src: Option<String>,
    pub style: Option<String>,
}

/// An image location survives only if it neither names an avatar nor
/// carries inline data.
pub open spec fn spec_keep_url(s: Seq<char>) -> bool {
    !contains_sub(s, "avatar"@) && !starts_with_chars(s, "data:"@)
}

pub open spec fn is_quote(c: char) -> bool {
    c == '"' || c == '\''
}

pub open spec fn spec_trim_quotes_front(s: Seq<char>) -> Seq<char>
    decreases s.len(),
{
    if s.len() > 0 && is_quote(s[0]) {
        spec_trim_quotes_front(s.skip(1))
    } else {
        s
    }
}

pub open spec fn spec_trim_quotes_back(s: Seq<char>) -> Seq<char>
    decreases s.len(),
{
    if s.len() > 0 && is_quote(s.last()) {
        spec_trim_quotes_back(s.drop_last())
    } else {
        s
    }
}

/// Surrounding quote characters stripped from both ends.
pub open spec fn spec_trim_quotes(s: Seq<char>) -> Seq<char> {
    spec_trim_quotes_back(spec_trim_quotes_front(s))
}

/// The image location hidden in a style attribute: the text between the
/// first `url(` and the next `)`, quotes stripped; `None` where the style
/// carries no background image or the location is empty.
pub open spec fn spec_style_url(style: Seq<char>) -> Option<Seq<char>> {
    if contains_sub(style, "background-image"@) && contains_sub(style, "url("@) {
        let i = spec_find(style, "url("@)->0;
        let after = style.skip(i + 4);
        let upto = match spec_find(after, ")"@) {
            Some(j) => after.subrange(0, j),
            None => after,
        };
        let cleaned = spec_trim_quotes(upto);
        if cleaned.len() > 0 {
            Some(cleaned)
        } else {
            None
        }
    } else {
        None
    }
}

/// Executable test for a quote character.
fn is_quote_char(c: char) -> (r: bool)
    ensures
        r == is_quote(c),
{
    c == '"' || c == '\''
}

/// Strips surrounding quote characters from both ends.
fn trim_quotes(s: &str) -> (r: String)
    ensures
        r@ == spec_trim_quotes(s@),
{
    let n = s.unicode_len();
    let mut lo: usize = 0;
    proof {
        assert(s@.skip(0) =~= s@);
    }
    while lo < n && is_quote_char(s.get_char(lo))
        invariant
            lo <= n,
            n == s@.len(),
            spec_trim_quotes_front(s@) == spec_trim_quotes_front(s@.skip(lo as int)),
        decreases n - lo,
    {
        proof {
            assert(s@.skip(lo as int)[0] == s@[lo as int]);
            assert(s@.skip(lo as int).skip(1) =~= s@.skip(lo as int + 1));
        }
        lo = lo + 1;
    }
    proof {
        assert(spec_trim_quotes_front(s@.skip(lo as int)) == s@.skip(lo as int)) by {
            if s@.skip(lo as int).len() > 0 {
                assert(s@.skip(lo as int)[0] == s@[lo as int]);
            }
        }
        assert(spec_trim_quotes_front(s@) == s@.skip(lo as int));
    }
    let mut hi: usize = n;
    proof {
        assert(s@.skip(lo as int) =~= s@.subrange(lo as int, hi as int));
    }
    while hi > lo && is_quote_char(s.get_char(hi - 1))
        invariant
            lo <= hi <= n,
            n == s@.len(),
            spec_trim_quotes_back(s@.skip(lo as int)) == spec_trim_quotes_back(
                s@.subrange(lo as int, hi as int),
            ),
        decreases hi,
    {
        proof {
            let cur = s@.subrange(lo as int, hi as int);
            assert(cur.last() == s@[hi - 1]);
            assert(cur.drop_last() =~= s@.subrange(lo as int, hi as int - 1));
        }
        hi = hi - 1;
    }
    proof {
        let cur = s@.subrange(lo as int, hi as int);
        assert(spec_trim_quotes_back(cur) == cur) by {
            if cur.len() > 0 {
                assert(cur.last() == s@[hi - 1]);
            }
        }
    }
    String::from_str(s.substring_char(lo, hi))
}

/// Recovers the image location from a style attribute, if any.
pub fn style_image_url(style: &str) -> (r: Option<String>)
    ensures
        match r {
            Some(u) => spec_style_url(style@) == Some(u@),
            None => spec_style_url(style@) is None,
        },
{
    if !contains_str(style, "background-image") || !contains_str(style, "url(") {
        return None;
    }
    let i = match find_sub(style, "url(") {
        Some(i) => i,
        None => {
            proof {
                assert(false);
            }
            return None;
        },
    };
    let n = style.unicode_len();
    let ulen = "url(".unicode_len();
    proof {
        reveal_strlit("url(");
        crate::textutil::lemma_find_props(style@, "url("@);
        assert(i + ulen <= n);
    }
    let after = style.substring_char(i + ulen, n);
    proof {
        assert(after@ =~= style@.skip(i as int + 4));
    }
    let upto = match find_sub(after, ")") {
        Some(j) => {
            proof {
                crate::textutil::lemma_find_props(after@, ")"@);
                assert(j <= after@.len());
            }
            after.substring_char(0, j)
        },
        None => after,
    };
    proof {
        assert(after@.subrange(0, after@.len() as int) =~= after@);
    }
    let cleaned = trim_quotes(upto);
    if cleaned.as_str().unicode_len() == 0 {
        None
    } else {
        Some(cleaned)
    }
}

/// The locations one matched element contributes: a filtered source
/// attribute first, else whatever its style attribute hides.
pub open spec fn spec_elem_urls(e: ElemSrc) -> Seq<Seq<char>> {
    match e.src {
        Some(s) => if spec_keep_url(s@) {
            seq![s@]
        } else {
            Seq::<Seq<char>>::empty()
        },
        None => match e.style {
            Some(st) => match spec_style_url(st@) {
                Some(u) => if spec_keep_url(u) {
                    seq![u]
                } else {
                    Seq::<Seq<char>>::empty()
                },
                None => Seq::<Seq<char>>::empty(),
            },
            None => Seq::<Seq<char>>::empty(),
        },
    }
}

/// All locations the matched elements contribute, in document order.
pub open spec fn spec_collect(items: Seq<ElemSrc>) -> Seq<Seq<char>>
    decreases items.len(),
{
    if items.len() == 0 {
        Seq::<Seq<char>>::empty()
    } else {
        spec_elem_urls(items[0]) + spec_collect(items.skip(1))
    }
}

/// Collects the image locations contributed by the matched elements.
#[verifier::rlimit(100)]
pub fn collect_images(items: &Vec<ElemSrc>) -> (r: Vec<String>)
    ensures
        r@.map_values(|s: String| s@) == spec_collect(items@),
{
    let mut out: Vec<String> = Vec::new();
    let mut i: usize = 0;
    proof {
        assert(items@.skip(0) =~= items@);
        assert(out@.map_values(|s: String| s@) + spec_collect(items@) =~= spec_collect(items@));
    }
    while i < items.len()
        invariant
            i <= items@.len(),
            out@.map_values(|s: String| s@) + spec_collect(items@.skip(i as int)) == spec_collect(
                items@,
            ),
        decreases items@.len() - i,
    {
        proof {
            assert(items@.skip(i as int)[0] == items@[i as int]);
            assert(items@.skip(i as int).skip(1) =~= items@.skip(i as int + 1));
        }
        let ghost prev = out@.map_values(|s: String| s@);
        let item = &items[i];
        match &item.src {
            Some(s) => {
                if !contains_str(s.as_str(), "avatar") && !starts_with_str(s.as_str(), "data:") {
                    out.push(s.clone());
                    proof {
                        assert(out@.map_values(|s: String| s@) =~= prev + seq![s@]);
                    }
                } else {
                    proof {
                        assert(spec_elem_urls(items@[i as int]) =~= Seq::<Seq<char>>::empty());
                        assert(prev + (spec_elem_urls(items@[i as int]) + spec_collect(
                            items@.skip(i as int + 1),
                        )) =~= prev + spec_collect(items@.skip(i as int + 1)));
                    }
                }
            },
            None => {
                match &item.style {
                    Some(st) => {
                        match style_image_url(st.as_str()) {
                            Some(u) => {
                                if !contains_str(u.as_str(), "avatar") && !starts_with_str(
                                    u.as_str(),
                                    "data:",
                                ) {
                                    out.push(u);
                                    proof {
                                        assert(out@.map_values(|s: String| s@) =~= prev
                                            + spec_elem_urls(items@[i as int]));
                                    }
                                } else {
                                    proof {
                                        assert(spec_elem_urls(items@[i as int]) =~= Seq::<
                                            Seq<char>,
                                        >::empty());
                                        assert(prev + (spec_elem_urls(items@[i as int])
                                            + spec_collect(items@.skip(i as int + 1))) =~= prev
                                            + spec_collect(items@.skip(i as int + 1)));
                                    }
                                }
                            },
                            None => {
                                proof {
                                    assert(prev + (spec_elem_urls(items@[i as int]) + spec_collect(
                                        items@.skip(i as int + 1),
                                    )) =~= prev + spec_collect(items@.skip(i as int + 1)));
                                }
                            },
                        }
                    },
                    None => {
                        proof {
                            assert(prev + (spec_elem_urls(items@[i as int]) + spec_collect(
                                items@.skip(i as int + 1),
                            )) =~= prev + spec_collect(items@.skip(i as int + 1)));
                        }
                    },
                }
            },
        }
        proof {
            assert(prev + spec_collect(items@.skip(i as int)) =~= prev + (spec_elem_urls(
                items@[i as int],
            ) + spec_collect(items@.skip(i as int + 1))));
        }
        i = i + 1;
    }
    proof {
        assert(spec_collect(items@.skip(items@.len() as int)).len() == 0);
        assert(out@.map_values(|s: String| s@) + spec_collect(items@.skip(items@.len() as int))
            =~= out@.map_values(|s: String| s@));
    }
    out
}

/// `x` stands among the views of `v`.
pub open spec fn in_views(v: Seq<String>, x: Seq<char>) -> bool {
    exists|j: int| 0 <= j < v.len() && v[j]@ == x
}

/// Sorts the image locations lexicographically and drops duplicates: each
/// distinct input location appears exactly once, and nothing else.
#[verifier::rlimit(100)]
pub fn dedup_images(urls: &Vec<String>) -> (r: Vec<String>)
    ensures
        forall|i: int, j: int| 0 <= i < j < r@.len() ==> chars_le(r@[i]@, r@[j]@),
        forall|i: int, j: int| 0 <= i < j < r@.len() ==> r@[i]@ != r@[j]@,
        forall|x: Seq<char>| in_views(r@, x) <==> in_views(urls@, x),
{
    let mut out: Vec<String> = Vec::new();
    let mut i: usize = 0;
    while i < urls.len()
        invariant
            i <= urls@.len(),
            forall|p: int, q: int| 0 <= p < q < out@.len() ==> chars_le(out@[p]@, out@[q]@),
            forall|p: int, q: int| 0 <= p < q < out@.len() ==> out@[p]@ != out@[q]@,
            forall|x: Seq<char>| in_views(out@, x) <==> in_views(urls@.take(i as int), x),
        decreases urls@.len() - i,
    {
        let url = &urls[i];
        let mut k: usize = 0;
        let mut present = false;
        let mut stop = false;
        while !stop && k < out.len()
            invariant
                k <= out@.len(),
                forall|p: int, q: int| 0 <= p < q < out@.len() ==> chars_le(out@[p]@, out@[q]@),
                forall|p: int| 0 <= p < k ==> chars_le(out@[p]@, url@) && out@[p]@ != url@,
                present ==> stop,
                present ==> k < out@.len() && out@[k as int]@ == url@,
                stop && !present && k < out@.len() ==> chars_le(url@, out@[k as int]@)
                    && out@[k as int]@ != url@,
            decreases out@.len() - k + (if stop { 0int } else { 1int }),
        {
            let c = str_cmp(out[k].as_str(), url.as_str());
            match c {
                CmpRes::Lt => {
                    k = k + 1;
                },
                CmpRes::Eq => {
                    present = true;
                    stop = true;
                },
                CmpRes::Gt => {
                    stop = true;
                },
            }
        }
        let ghost prev = out@;
        proof {
            assert(urls@.take(i as int + 1) =~= urls@.take(i as int).push(urls@[i as int]));
            assert forall|x: Seq<char>| in_views(urls@.take(i as int + 1), x) implies (in_views(
                urls@.take(i as int),
                x,
            ) || x == url@) by {
                let j = choose|j: int|
                    0 <= j < urls@.take(i as int + 1).len() && (#[trigger] urls@.take(
                        i as int + 1,
                    )[j])@ == x;
                if j < i {
                    assert(urls@.take(i as int)[j]@ == x);
                } else {
                    assert(x == url@);
                }
            }
            assert forall|x: Seq<char>| (in_views(urls@.take(i as int), x) || x == url@) implies
                in_views(urls@.take(i as int + 1), x) by {
                if in_views(urls@.take(i as int), x) {
                    let j = choose|j: int|
                        0 <= j < urls@.take(i as int).len() && (#[trigger] urls@.take(
                            i as int,
                        )[j])@ == x;
                    assert(urls@.take(i as int + 1)[j]@ == x);
                } else {
                    assert(urls@.take(i as int + 1)[i as int]@ == x);
                }
            }
        }
        if present {
            proof {
                assert(out@[k as int]@ == url@);
                assert(in_views(out@, url@));
                assert forall|x: Seq<char>| in_views(out@, x) implies in_views(
                    urls@.take(i as int + 1),
                    x,
                ) by {
                    assert(in_views(urls@.take(i as int), x));
                }
                assert forall|x: Seq<char>| in_views(urls@.take(i as int + 1), x) implies in_views(
                    out@,
                    x,
                ) by {
                    assert(in_views(urls@.take(i as int), x) || x == url@);
                }
            }
        } else {
            out.insert(k, url.clone());
            proof {
                assert(out@ =~= prev.subrange(0, k as int) + seq![urls@[i as int]] + prev.subrange(
                    k as int,
                    prev.len() as int,
                ));
                // every old element keeps a place, the new one stands at k
                assert(forall|p: int| 0 <= p < k ==> out@[p] == prev[p]);
                assert(out@[k as int]@ == url@);
                assert(forall|p: int| k < p < out@.len() ==> out@[p] == prev[p - 1]);
                // where the search stopped short, the new element sits below it
                if k < prev.len() {
                    assert(chars_le(url@, prev[k as int]@) && prev[k as int]@ != url@);
                }
                assert forall|q: int| k < q < out@.len() implies chars_le(url@, out@[q]@)
                    && out@[q]@ != url@ by {
                    if k < q - 1 {
                        assert(chars_le(prev[k as int]@, prev[q - 1]@));
                        lemma_chars_le_trans(url@, prev[k as int]@, prev[q - 1]@);
                    }
                    if out@[q]@ == url@ {
                        lemma_chars_le_antisym(url@, prev[k as int]@);
                    }
                }
                assert forall|p: int, q: int| 0 <= p < q < out@.len() implies chars_le(
                    out@[p]@,
                    out@[q]@,
                ) && out@[p]@ != out@[q]@ by {
                    if q == k {
                        assert(chars_le(out@[p]@, url@) && out@[p]@ != url@);
                    } else if p == k && q > k {
                        assert(chars_le(url@, out@[q]@) && out@[q]@ != url@);
                    } else if p < k && q > k {
                        assert(chars_le(url@, out@[q]@) && out@[q]@ != url@);
                        assert(out@[q]@ == prev[q - 1]@);
                        lemma_chars_le_trans(prev[p]@, url@, prev[q - 1]@);
                        if out@[p]@ == out@[q]@ {
                            lemma_chars_le_antisym(prev[p]@, url@);
                        }
                    }
                }
                assert forall|x: Seq<char>| in_views(out@, x) implies (in_views(prev, x) || x
                    == url@) by {
                    let j = choose|j: int| 0 <= j < out@.len() && out@[j]@ == x;
                    if j < k {
                        assert(prev[j]@ == x);
                    } else if j > k {
                        assert(prev[j - 1]@ == x);
                    }
                }
                assert forall|x: Seq<char>| (in_views(prev, x) || x == url@) implies in_views(
                    out@,
                    x,
                ) by {
                    if in_views(prev, x) {
                        let j = choose|j: int| 0 <= j < prev.len() && prev[j]@ == x;
                        if j < k {
                            assert(out@[j]@ == x);
                        } else {
                            assert(out@[j + 1]@ == x);
                        }
                    } else {
                        assert(out@[k as int]@ == x);
                    }
                }
                assert forall|x: Seq<char>| in_views(out@, x) implies in_views(
                    urls@.take(i as int + 1),
                    x,
                ) by {
                    assert(in_views(prev, x) || x == url@);
                    if in_views(prev, x) {
                        assert(in_views(urls@.take(i as int), x));
                    }
                }
                assert forall|x: Seq<char>| in_views(urls@.take(i as int + 1), x) implies in_views(
                    out@,
                    x,
                ) by {
                    assert(in_views(urls@.take(i as int), x) || x == url@);
                    if in_views(urls@.take(i as int), x) {
                        assert(in_views(prev, x));
                    }
                }
            }
        }
        i = i + 1;
    }
    proof {
        assert(urls@.take(urls@.len() as int) =~= urls@);
    }
    out
}

/// Membership among a vector's views is membership in the mapped sequence.
pub proof fn lemma_in_views_map(v: Seq<String>)
    ensures
        forall|x: Seq<char>| in_views(v, x) <==> v.map_values(|s: String| s@).contains(x),
{
    assert forall|x: Seq<char>| in_views(v, x) implies v.map_values(|s: String| s@).contains(
        x,
    ) by {
        let j = choose|j: int| 0 <= j < v.len() && v[j]@ == x;
        assert(v.map_values(|s: String| s@)[j] == x);
    }
    assert forall|x: Seq<char>| v.map_values(|s: String| s@).contains(x) implies in_views(
        v,
        x,
    ) by {
        let m = v.map_values(|s: String| s@);
        let j = choose|j: int| 0 <= j < m.len() && m[j] == x;
        assert(v[j]@ == x);
    }
}

/// Nothing collected names an avatar or carries inline data: the exclusion
/// rule holds of source attributes and style-derived locations alike.
pub proof fn lemma_collected_kept(items: Seq<ElemSrc>, x: Seq<char>)
    requires
        spec_collect(items).contains(x),
    ensures
        spec_keep_url(x),
    decreases items.len(),
{
    if items.len() > 0 {
        let head = spec_elem_urls(items[0]);
        let rest = spec_collect(items.skip(1));
        let idx = choose|idx: int| 0 <= idx < spec_collect(items).len() && spec_collect(items)[idx]
            == x;
        if idx < head.len() {
            assert(head[idx] == x);
        } else {
            assert(rest[idx - head.len()] == x);
            assert(rest.contains(x));
            lemma_collected_kept(items.skip(1), x);
        }
    }
}

} // verus!
