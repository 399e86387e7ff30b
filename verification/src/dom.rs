use vstd::prelude::*;
use vstd::string::*;
use crate::ScrapedData;
use crate::images::ElemSrc;
use crate::images::collect_images;
use crate::images::dedup_images;
use crate::images::in_views;
use crate::images::spec_collect;
use crate::statejson::spec_structured_desc;
use crate::statejson::spec_structured_images;
use crate::statejson::spec_structured_title;
use crate::statejson::spec_trim;
use crate::statejson::structured_fields;
use crate::statejson::trim_ws;
use crate::textutil::chars_le;

verus! {

/// The selector for the document title element.
pub open spec fn title_sel() -> Seq<char> {
    "title"@
}

/// The class- and id-based fallback selectors for the title.
pub open spec fn title_fallback_sel() -> Seq<char> {
    ".title, #detail-title"@
}

/// The selector for the description meta tag.
pub open spec fn desc_sel() -> Seq<char> {
    "meta[name='description']"@
}

/// The fallback selectors for the description.
pub open spec fn desc_fallback_sel() -> Seq<char> {
    ".desc, #detail-desc, .content"@
}

/// The gallery selectors for images.
pub open spec fn image_sel() -> Seq<char> {
    ".note-slider-img, .swiper-slide img, .note-content img"@
}

/// Whether a selector list compiles: a function of the selector text.
pub uninterp spec fn selector_ok(sel: Seq<char>) -> bool;

/// The concatenated text of the first element of the parsed document
/// matching the selector: a function of document text and selector.
pub uninterp spec fn dom_first_text(html: Seq<char>, sel: Seq<char>) -> Option<Seq<char>>;

/// The named attribute of the first element of the parsed document
/// matching the selector: a function of its three arguments.
pub uninterp spec fn dom_first_attr(html: Seq<char>, sel: Seq<char>, attr: Seq<char>) -> Option<
    Seq<char>,
>;

/// The two named attributes of every element of the parsed document
/// matching the selector, in document order: a function of its arguments.
pub uninterp spec fn dom_attr_pairs(
    html: Seq<char>,
    sel: Seq<char>,
    a1: Seq<char>,
    a2: Seq<char>,
) -> Seq<ElemSrc>;

/// Relies on scraper::Selector::parse: whether the selector list compiles,
/// which depends on the selector text alone.
#[verifier::external_body]
fn selector_compiles(sel: &str) -> (r: bool)
    ensures
        r == selector_ok(sel@),
{
    scraper::Selector::parse(sel).is_ok()
}

/// Relies on scraper::Html::parse_document, Html::select and
/// ElementRef::text: the concatenated text of the first element of the
/// parsed document matching the selector; parsing and matching are
/// functions of document text and selector alone.
#[verifier::external_body]
fn first_match_text(html: &str, sel: &str) -> (r: Option<String>)
    requires
        selector_ok(sel@),
    ensures
        opt_view(r) == dom_first_text(html@, sel@),
{
    let selector = scraper::Selector::parse(sel).unwrap();
    let doc = scraper::Html::parse_document(html);
    let found = doc.select(&selector).next().map(|el| el.text().collect::<Vec<_>>().join(""));
    found
}

/// Relies on scraper::Html::parse_document, Html::select and
/// ElementRef::attr: the named attribute of the first element of the
/// parsed document matching the selector.
#[verifier::external_body]
fn first_match_attr(html: &str, sel: &str, attr: &str) -> (r: Option<String>)
    requires
        selector_ok(sel@),
    ensures
        opt_view(r) == dom_first_attr(html@, sel@, attr@),
{
    let selector = scraper::Selector::parse(sel).unwrap();
    let doc = scraper::Html::parse_document(html);
    let found = doc.select(&selector).next().and_then(|el| el.attr(attr)).map(|s| s.to_string());
    found
}

/// Relies on scraper::Html::parse_document, Html::select and
/// ElementRef::attr: the two named attributes of every element of the
/// parsed document matching the selector, in document order.
#[verifier::external_body]
fn match_attr_pairs(html: &str, sel: &str, a1: &str, a2: &str) -> (r: Vec<ElemSrc>)
    requires
        selector_ok(sel@),
    ensures
        r@ == dom_attr_pairs(html@, sel@, a1@, a2@),
{
    let selector = scraper::Selector::parse(sel).unwrap();
    let doc = scraper::Html::parse_document(html);
    doc.select(&selector)
        .map(
            |el| ElemSrc {
                src: el.attr(a1).map(|s| s.to_string()),
                style: el.attr(a2).map(|s| s.to_string()),
            },
        )
        .collect()
}

/// The view of an optional string.
pub open spec fn opt_view(o: Option<String>) -> Option<Seq<char>> {
    match o {
        Some(s) => Some(s@),
        None => None,
    }
}

/// An optional text, trimmed when present.
pub open spec fn opt_trim(o: Option<Seq<char>>) -> Option<Seq<char>> {
    match o {
        Some(t) => Some(spec_trim(t)),
        None => None,
    }
}

/// The ordered fallback rule for one field: the value already recovered
/// wins if non-empty; else the primary lookup's non-empty result; else the
/// secondary lookup's non-empty result; else empty.
pub open spec fn spec_resolve(cur: Seq<char>, p: Option<Seq<char>>, s: Option<Seq<char>>) -> Seq<
    char,
> {
    if cur.len() > 0 {
        cur
    } else if p matches Some(x) && x.len() > 0 {
        p->0
    } else if s matches Some(y) && y.len() > 0 {
        s->0
    } else {
        Seq::<char>::empty()
    }
}

/// The title the whole pipeline owes for a document.
pub open spec fn spec_pipeline_title(html: Seq<char>) -> Seq<char> {
    spec_resolve(
        spec_structured_title(html),
        opt_trim(dom_first_text(html, title_sel())),
        dom_first_text(html, title_fallback_sel()),
    )
}

/// The description the whole pipeline owes for a document.
pub open spec fn spec_pipeline_desc(html: Seq<char>) -> Seq<char> {
    spec_resolve(
        spec_structured_desc(html),
        dom_first_attr(html, desc_sel(), "content"@),
        dom_first_text(html, desc_fallback_sel()),
    )
}

/// The image locations gathered before deduplication: the blob's list when
/// it yields any, else the filtered selector matches — the selectors are
/// not consulted otherwise.
pub open spec fn spec_gathered_images(html: Seq<char>) -> Seq<Seq<char>> {
    if spec_structured_images(html).len() > 0 {
        spec_structured_images(html)
    } else {
        spec_collect(dom_attr_pairs(html, image_sel(), "src"@, "style"@))
    }
}

/// All five fixed selector lists compile.
pub open spec fn spec_selectors_ok() -> bool {
    selector_ok(title_sel()) && selector_ok(title_fallback_sel()) && selector_ok(desc_sel())
        && selector_ok(desc_fallback_sel()) && selector_ok(image_sel())
}

/// Applies the ordered fallback rule for one field.
pub fn resolve_field(current: String, primary: Option<String>, secondary: Option<String>) -> (r:
    String)
    ensures
        r@ == spec_resolve(current@, opt_view(primary), opt_view(secondary)),
{
    if current.as_str().unicode_len() > 0 {
        return current;
    }
    match primary {
        Some(x) => {
            if x.as_str().unicode_len() > 0 {
                return x;
            }
        },
        None => {},
    }
    match secondary {
        Some(y) => {
            if y.as_str().unicode_len() > 0 {
                return y;
            }
        },
        None => {},
    }
    let empty = String::new();
    proof {
        assert(empty@ =~= Seq::<char>::empty());
    }
    empty
}

/// A non-empty field recovered from the embedded state survives unchanged,
/// whatever the selector lookups would have said.
pub proof fn lemma_structured_wins(cur: Seq<char>, p: Option<Seq<char>>, s: Option<Seq<char>>)
    requires
        cur.len() > 0,
    ensures
        spec_resolve(cur, p, s) == cur,
{
}

/// With nothing recovered from the embedded state, the primary lookup wins
/// when it yields non-empty text; only then does the secondary lookup speak.
pub proof fn lemma_fallback_order(p: Option<Seq<char>>, s: Option<Seq<char>>)
    ensures
        (p matches Some(x) && x.len() > 0) ==> spec_resolve(Seq::<char>::empty(), p, s) == p->0,
        !(p matches Some(x) && x.len() > 0) && (s matches Some(y) && y.len() > 0) ==> spec_resolve(
            Seq::<char>::empty(),
            p,
            s,
        ) == s->0,
{
}

/// Runs the whole extraction pipeline on fetched document text: structured
/// state first, selector fallbacks for each field left empty, then image
/// deduplication. `Err` exactly when one of the five fixed selector lists
/// fails to compile, which a correct build never hits.
pub fn extract_scraped(html: &str) -> (r: Result<ScrapedData, String>)
    ensures
        (r is Err) == !spec_selectors_ok(),
        r matches Ok(d) ==> d.title@ == spec_pipeline_title(html@),
        r matches Ok(d) ==> d.description@ == spec_pipeline_desc(html@),
        r matches Ok(d) ==> forall|x: Seq<char>|
            in_views(d.images@, x) <==> spec_gathered_images(html@).contains(x),
        r matches Ok(d) ==> forall|i: int, j: int|
            0 <= i < j < d.images@.len() ==> chars_le(d.images@[i]@, d.images@[j]@) && d.images@[i]@
                != d.images@[j]@,
        r matches Ok(d) ==> d.video is None,
{
    if !selector_compiles("title") {
        return Err(String::from_str("invalid title selector"));
    }
    if !selector_compiles(".title, #detail-title") {
        return Err(String::from_str("invalid title fallback selector"));
    }
    if !selector_compiles("meta[name='description']") {
        return Err(String::from_str("invalid description selector"));
    }
    if !selector_compiles(".desc, #detail-desc, .content") {
        return Err(String::from_str("invalid description fallback selector"));
    }
    if !selector_compiles(".note-slider-img, .swiper-slide img, .note-content img") {
        return Err(String::from_str("invalid image selector"));
    }

    let (title0, description0, images0) = structured_fields(html);

    let title = if title0.as_str().unicode_len() == 0 {
        let primary = match first_match_text(html, "title") {
            Some(p) => Some(trim_ws(p.as_str())),
            None => None,
        };
        let secondary = first_match_text(html, ".title, #detail-title");
        let resolved = resolve_field(title0, primary, secondary);
        proof {
            assert(resolved@ == spec_pipeline_title(html@));
        }
        resolved
    } else {
        proof {
            assert(title0@ == spec_pipeline_title(html@));
        }
        title0
    };

    let description = if description0.as_str().unicode_len() == 0 {
        let primary = first_match_attr(html, "meta[name='description']", "content");
        let secondary = first_match_text(html, ".desc, #detail-desc, .content");
        let resolved = resolve_field(description0, primary, secondary);
        proof {
            assert(resolved@ == spec_pipeline_desc(html@));
        }
        resolved
    } else {
        proof {
            assert(description0@ == spec_pipeline_desc(html@));
        }
        description0
    };

    let gathered = if images0.len() == 0 {
        let items = match_attr_pairs(
            html,
            ".note-slider-img, .swiper-slide img, .note-content img",
            "src",
            "style",
        );
        let collected = collect_images(&items);
        proof {
            assert(images0@.map_values(|s: String| s@).len() == 0);
            assert(collected@.map_values(|s: String| s@) == spec_gathered_images(html@));
        }
        collected
    } else {
        proof {
            assert(images0@.map_values(|s: String| s@).len() > 0);
            assert(images0@.map_values(|s: String| s@) == spec_gathered_images(html@));
        }
        images0
    };
    let images = dedup_images(&gathered);
    proof {
        crate::images::lemma_in_views_map(gathered@);
        assert(forall|x: Seq<char>|
            in_views(images@, x) <==> spec_gathered_images(html@).contains(x));
    }

    Ok(ScrapedData { title, description, images, video: None })
}

} // verus!
