//! The scene metadata of a Collada document's `<asset>`.
use vstd::prelude::*;

use crate::dae::node::{insert_first, insert_first_spec};
use crate::text::{chars_of, string_from_chars};
use crate::textmap::TextMap;

verus! {

/// A `<contributor>` of a Collada asset.
pub struct ContributorInfo {
    pub author: Option<String>,
    pub authoring_tool: Option<String>,
    pub comments: Option<String>,
    pub copyright: Option<String>,
    pub source_data: Option<String>,
}

/// The `<asset>` of a Collada document, its dates already written out.
pub struct AssetInfo {
    pub contributors: Vec<ContributorInfo>,
    pub created: String,
    pub modified: String,
    pub keywords: Vec<String>,
    pub revision: Option<String>,
    pub subject: Option<String>,
    pub title: Option<String>,
}

/// The texts of a map of strings.
pub open spec fn texts(m: Map<Seq<char>, String>) -> Map<Seq<char>, Seq<char>> {
    m.map_values(|s: String| s@)
}

pub open spec fn opt_view(o: Option<String>) -> Option<Seq<char>> {
    match o {
        Some(s) => Some(s@),
        None => None,
    }
}

/// The metadata after `value` is offered under `key`: kept when present,
/// not empty, and the key has no entry yet.
pub open spec fn offer(m: Map<Seq<char>, Seq<char>>, key: Seq<char>, value: Option<Seq<char>>) -> Map<Seq<char>, Seq<char>> {
    match value {
        Some(v) => if v.len() > 0 && !m.dom().contains(key) { m.insert(key, v) } else { m },
        None => m,
    }
}

/// The metadata after the contributors `cs`, in order: each offers its
/// authoring tool, copyright, author, comments and source data.
pub open spec fn contributors_spec(m: Map<Seq<char>, Seq<char>>, cs: Seq<ContributorInfo>) -> Map<Seq<char>, Seq<char>>
    decreases cs.len(),
{
    if cs.len() == 0 {
        m
    } else {
        let m1 = contributors_spec(m, cs.drop_last());
        let c = cs.last();
        let m2 = offer(m1, "SourceAsset_Generator"@, opt_view(c.authoring_tool));
        let m3 = offer(m2, "SourceAsset_Copyright"@, opt_view(c.copyright));
        let m4 = offer(m3, "Author"@, opt_view(c.author));
        let m5 = offer(m4, "Comments"@, opt_view(c.comments));
        offer(m5, "SourceData"@, opt_view(c.source_data))
    }
}

/// Words joined by single spaces.
pub open spec fn join_words(ws: Seq<Seq<char>>) -> Seq<char>
    decreases ws.len(),
{
    if ws.len() == 0 {
        Seq::empty()
    } else if ws.len() == 1 {
        ws[0]
    } else {
        join_words(ws.drop_last()) + seq![' '] + ws.last()
    }
}

pub open spec fn words(ws: Seq<String>) -> Seq<Seq<char>> {
    Seq::new(ws.len(), |i: int| ws[i]@)
}

/// The metadata of an asset: what its contributors offer, then its
/// creation and modification dates, its keywords joined by spaces (when
/// it has any), its revision, subject and title; the first non-empty
/// value of each key stays.
pub open spec fn metadata_spec(a: AssetInfo) -> Map<Seq<char>, Seq<char>> {
    let m1 = contributors_spec(Map::empty(), a.contributors@);
    let m2 = offer(m1, "Created"@, Some(a.created@));
    let m3 = offer(m2, "Modified"@, Some(a.modified@));
    let m4 = offer(m3, "Keywords"@, if a.keywords@.len() == 0 { None } else { Some(join_words(words(a.keywords@))) });
    let m5 = offer(m4, "Revision"@, opt_view(a.revision));
    let m6 = offer(m5, "Subject"@, opt_view(a.subject));
    offer(m6, "Title"@, opt_view(a.title))
}

/// A contributor, as a value.
pub struct ContributorView {
    pub author: Option<Seq<char>>,
    pub authoring_tool: Option<Seq<char>>,
    pub comments: Option<Seq<char>>,
    pub copyright: Option<Seq<char>>,
    pub source_data: Option<Seq<char>>,
}

/// An asset, as a value.
pub struct AssetView {
    pub contributors: Seq<ContributorView>,
    pub created: Seq<char>,
    pub modified: Seq<char>,
    pub keywords: Seq<Seq<char>>,
    pub revision: Option<Seq<char>>,
    pub subject: Option<Seq<char>>,
    pub title: Option<Seq<char>>,
}

pub open spec fn contributor_view(c: ContributorInfo) -> ContributorView {
    ContributorView {
        author: opt_view(c.author),
        authoring_tool: opt_view(c.authoring_tool),
        comments: opt_view(c.comments),
        copyright: opt_view(c.copyright),
        source_data: opt_view(c.source_data),
    }
}

pub open spec fn asset_view(a: AssetInfo) -> AssetView {
    AssetView {
        contributors: a.contributors@.map_values(|c: ContributorInfo| contributor_view(c)),
        created: a.created@,
        modified: a.modified@,
        keywords: words(a.keywords@),
        revision: opt_view(a.revision),
        subject: opt_view(a.subject),
        title: opt_view(a.title),
    }
}

/// The metadata after the contributors `cs` (see `contributors_spec`).
pub open spec fn contributors_view_spec(m: Map<Seq<char>, Seq<char>>, cs: Seq<ContributorView>) -> Map<Seq<char>, Seq<char>>
    decreases cs.len(),
{
    if cs.len() == 0 {
        m
    } else {
        let m1 = contributors_view_spec(m, cs.drop_last());
        let c = cs.last();
        let m2 = offer(m1, "SourceAsset_Generator"@, c.authoring_tool);
        let m3 = offer(m2, "SourceAsset_Copyright"@, c.copyright);
        let m4 = offer(m3, "Author"@, c.author);
        let m5 = offer(m4, "Comments"@, c.comments);
        offer(m5, "SourceData"@, c.source_data)
    }
}

/// The metadata of an asset (see `metadata_spec`), from its value.
pub open spec fn metadata_view_spec(a: AssetView) -> Map<Seq<char>, Seq<char>> {
    let m1 = contributors_view_spec(Map::empty(), a.contributors);
    let m2 = offer(m1, "Created"@, Some(a.created));
    let m3 = offer(m2, "Modified"@, Some(a.modified));
    let m4 = offer(m3, "Keywords"@, if a.keywords.len() == 0 { None } else { Some(join_words(a.keywords)) });
    let m5 = offer(m4, "Revision"@, a.revision);
    let m6 = offer(m5, "Subject"@, a.subject);
    offer(m6, "Title"@, a.title)
}

proof fn lemma_contributors_view(m: Map<Seq<char>, Seq<char>>, cs: Seq<ContributorInfo>)
    ensures
        contributors_spec(m, cs) == contributors_view_spec(m, cs.map_values(|c: ContributorInfo| contributor_view(c))),
    decreases cs.len(),
{
    if cs.len() > 0 {
        lemma_contributors_view(m, cs.drop_last());
        let v = cs.map_values(|c: ContributorInfo| contributor_view(c));
        assert(v.drop_last() =~= cs.drop_last().map_values(|c: ContributorInfo| contributor_view(c)));
        assert(v.last() == contributor_view(cs.last()));
    }
}

/// The metadata of an asset depends on its value alone.
pub proof fn lemma_metadata_view(a: AssetInfo)
    ensures
        metadata_spec(a) == metadata_view_spec(asset_view(a)),
{
    lemma_contributors_view(Map::empty(), a.contributors@);
}

proof fn lemma_offer(m: Map<Seq<char>, String>, key: Seq<char>, value: Option<String>)
    ensures
        texts(insert_first_spec(m, key, value)) == offer(texts(m), key, opt_view(value)),
{
    match value {
        Some(v) => {
            if v@.len() > 0 && !m.dom().contains(key) {
                assert(texts(m.insert(key, v)) =~= texts(m).insert(key, v@));
            }
        },
        None => {},
    }
}

fn offer_into(metadata: &mut TextMap<String>, key: &str, value: Option<String>)
    requires
        old(metadata).wf(),
    ensures
        final(metadata).wf(),
        texts(final(metadata).as_map()) == offer(texts(old(metadata).as_map()), key@, opt_view(value)),
{
    proof {
        lemma_offer(metadata.as_map(), key@, value);
    }
    insert_first(metadata, key, value);
}

fn copy_opt(o: &Option<String>) -> (r: Option<String>)
    ensures
        opt_view(r) == opt_view(*o),
{
    match o {
        Some(s) => Some(s.clone()),
        None => None,
    }
}

/// Words joined by single spaces.
fn join_with_spaces(ws: &Vec<String>) -> (r: String)
    ensures
        r@ == join_words(words(ws@)),
{
    let mut out: Vec<char> = Vec::new();
    let mut i: usize = 0;
    while i < ws.len()
        invariant
            i <= ws@.len(),
            out@ == join_words(words(ws@).take(i as int)),
        decreases ws@.len() - i,
    {
        let w = chars_of(ws[i].as_str());
        let ghost before = out@;
        if i > 0 {
            out.push(' ');
        }
        let mut k: usize = 0;
        while k < w.len()
            invariant
                k <= w@.len(),
                out@ == (if i > 0 { before + seq![' '] } else { before }) + w@.take(k as int),
            decreases w@.len() - k,
        {
            out.push(w[k]);
            assert(w@.take(k + 1) =~= w@.take(k as int).push(w@[k as int]));
            k = k + 1;
        }
        assert(w@.take(w@.len() as int) =~= w@);
        proof {
            let t = words(ws@).take(i + 1);
            assert(t.drop_last() =~= words(ws@).take(i as int));
            assert(t.last() == ws@[i as int]@);
            if i == 0 {
                assert(before =~= Seq::<char>::empty());
                assert(out@ =~= t[0]);
            }
        }
        i = i + 1;
    }
    assert(words(ws@).take(ws@.len() as int) =~= words(ws@));
    string_from_chars(&out)
}

/// The scene metadata of a Collada asset (see `metadata_spec`).
pub fn import_metadata(asset: &AssetInfo) -> (m: TextMap<String>)
    ensures
        m.wf(),
        texts(m.as_map()) == metadata_spec(*asset),
{
    let mut m: TextMap<String> = TextMap::new();
    assert(texts(m.as_map()) =~= Map::<Seq<char>, Seq<char>>::empty());
    let mut i: usize = 0;
    while i < asset.contributors.len()
        invariant
            m.wf(),
            i <= asset.contributors@.len(),
            texts(m.as_map()) == contributors_spec(Map::empty(), asset.contributors@.take(i as int)),
        decreases asset.contributors@.len() - i,
    {
        let c = &asset.contributors[i];
        assert(asset.contributors@.take(i + 1).drop_last() =~= asset.contributors@.take(i as int));
        assert(asset.contributors@.take(i + 1).last() == *c);
        offer_into(&mut m, "SourceAsset_Generator", copy_opt(&c.authoring_tool));
        offer_into(&mut m, "SourceAsset_Copyright", copy_opt(&c.copyright));
        offer_into(&mut m, "Author", copy_opt(&c.author));
        offer_into(&mut m, "Comments", copy_opt(&c.comments));
        offer_into(&mut m, "SourceData", copy_opt(&c.source_data));
        i = i + 1;
    }
    assert(asset.contributors@.take(asset.contributors@.len() as int) =~= asset.contributors@);
    offer_into(&mut m, "Created", Some(asset.created.clone()));
    offer_into(&mut m, "Modified", Some(asset.modified.clone()));
    let keywords = if asset.keywords.len() == 0 { None } else { Some(join_with_spaces(&asset.keywords)) };
    offer_into(&mut m, "Keywords", keywords);
    offer_into(&mut m, "Revision", copy_opt(&asset.revision));
    offer_into(&mut m, "Subject", copy_opt(&asset.subject));
    offer_into(&mut m, "Title", copy_opt(&asset.title));
    m
}

} // verus!
