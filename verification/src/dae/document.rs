//! Reading a Collada document: parsing its text, and the scene it
//! describes (its name, its materials, its root node and its metadata).
use vstd::prelude::*;

use crate::dae::importer::DaeImporter;
use crate::dae::metadata::{
    AssetInfo, AssetView, ContributorInfo, asset_view, import_metadata, lemma_metadata_view, metadata_view_spec, opt_view, texts,
};
use crate::dae::node::{find_name_for_node, lemma_node_name_view, node_name_view};
use crate::text::{decimal, decimal_chars, string_from_chars};
use crate::textmap::TextMap;

verus! {

/// A root node of a visual scene: its name, id and sid.
pub struct RootNode {
    pub name: Option<String>,
    pub id: Option<String>,
    pub sid: Option<String>,
}

/// The main visual scene of a document: its name, its id and its root
/// nodes.
pub struct SceneHead {
    pub name: Option<String>,
    pub id: Option<String>,
    pub roots: Vec<RootNode>,
}

/// A material of a material library: its name and id, the URL of the
/// effect it instantiates, and whether that URL names an effect of the
/// document.
pub struct MaterialEntry {
    pub name: Option<String>,
    pub id: Option<String>,
    pub effect_url: String,
    pub effect_found: bool,
}

/// What the scene import reads of a Collada document: the main visual
/// scene (none when the document has none), the material libraries in
/// order (none when the document's effects cannot be mapped by id), and
/// the asset.
pub struct ColladaDoc {
    pub visual_scene: Option<SceneHead>,
    pub materials: Option<Vec<Vec<MaterialEntry>>>,
    pub asset: AssetInfo,
}

/// A root node, as a value.
pub struct RootNodeView {
    pub name: Option<Seq<char>>,
    pub id: Option<Seq<char>>,
    pub sid: Option<Seq<char>>,
}

/// The main visual scene, as a value.
pub struct SceneHeadView {
    pub name: Option<Seq<char>>,
    pub id: Option<Seq<char>>,
    pub roots: Seq<RootNodeView>,
}

/// A material of a material library, as a value.
pub struct MaterialEntryView {
    pub name: Option<Seq<char>>,
    pub id: Option<Seq<char>>,
    pub effect_url: Seq<char>,
    pub effect_found: bool,
}

/// What the scene import reads of a Collada document, as a value.
pub struct ColladaDocView {
    pub visual_scene: Option<SceneHeadView>,
    pub materials: Option<Seq<Seq<MaterialEntryView>>>,
    pub asset: AssetView,
}

pub open spec fn root_view(n: RootNode) -> RootNodeView {
    RootNodeView { name: opt_view(n.name), id: opt_view(n.id), sid: opt_view(n.sid) }
}

pub open spec fn head_view(h: SceneHead) -> SceneHeadView {
    SceneHeadView { name: opt_view(h.name), id: opt_view(h.id), roots: h.roots@.map_values(|n: RootNode| root_view(n)) }
}

pub open spec fn opt_head_view(h: Option<SceneHead>) -> Option<SceneHeadView> {
    match h {
        Some(x) => Some(head_view(x)),
        None => None,
    }
}

pub open spec fn entry_view(e: MaterialEntry) -> MaterialEntryView {
    MaterialEntryView { name: opt_view(e.name), id: opt_view(e.id), effect_url: e.effect_url@, effect_found: e.effect_found }
}

pub open spec fn lib_view(l: Vec<MaterialEntry>) -> Seq<MaterialEntryView> {
    l@.map_values(|e: MaterialEntry| entry_view(e))
}

pub open spec fn libs_view(ls: Seq<Vec<MaterialEntry>>) -> Seq<Seq<MaterialEntryView>> {
    ls.map_values(|l: Vec<MaterialEntry>| lib_view(l))
}

pub open spec fn opt_libs_view(ls: Option<Vec<Vec<MaterialEntry>>>) -> Option<Seq<Seq<MaterialEntryView>>> {
    match ls {
        Some(x) => Some(libs_view(x@)),
        None => None,
    }
}

pub open spec fn doc_view(d: ColladaDoc) -> ColladaDocView {
    ColladaDocView {
        visual_scene: opt_head_view(d.visual_scene),
        materials: opt_libs_view(d.materials),
        asset: asset_view(d.asset),
    }
}

/// The scene read from a Collada document: its name, the name of each
/// material (every material carries its name as its name property), the
/// name of the root node and the scene metadata.
pub struct DaeScene {
    pub name: String,
    pub materials: Vec<String>,
    pub root_name: String,
    pub metadata: TextMap<String>,
}

/// Why a Collada document could not be read.
pub enum DaeReadError {
    /// The text is no Collada document.
    FileFormatError,
    /// The document names no visual scene that it holds.
    MissingVisualScene,
    /// A material instantiates an effect (by this URL) that the document
    /// does not hold.
    MissingLocalMapEntry(String),
    /// The visual scene has no node.
    MissingRootNode,
}

/// A read error, as a value.
pub enum ReadErrorView {
    FileFormatError,
    MissingVisualScene,
    MissingLocalMapEntry(Seq<char>),
    MissingRootNode,
}

pub open spec fn error_view(e: DaeReadError) -> ReadErrorView {
    match e {
        DaeReadError::FileFormatError => ReadErrorView::FileFormatError,
        DaeReadError::MissingVisualScene => ReadErrorView::MissingVisualScene,
        DaeReadError::MissingLocalMapEntry(u) => ReadErrorView::MissingLocalMapEntry(u@),
        DaeReadError::MissingRootNode => ReadErrorView::MissingRootNode,
    }
}

/// The name of a scene: its name, else its id, else empty.
pub open spec fn scene_name_spec(h: SceneHeadView) -> Seq<char> {
    match h.name {
        Some(n) => n,
        None => match h.id {
            Some(i) => i,
            None => Seq::empty(),
        },
    }
}

/// The name of the material at position `i` of its library: its name,
/// else its id, else `i` in decimal.
pub open spec fn material_name_spec(e: MaterialEntryView, i: nat) -> Seq<char> {
    match e.name {
        Some(n) => n,
        None => match e.id {
            Some(d) => d,
            None => decimal(i),
        },
    }
}

/// The materials of all libraries in order, each with its position in its
/// library.
pub open spec fn library_entries(libs: Seq<Seq<MaterialEntryView>>) -> Seq<(MaterialEntryView, nat)>
    decreases libs.len(),
{
    if libs.len() == 0 {
        Seq::empty()
    } else {
        library_entries(libs.drop_last()) + Seq::new(libs.last().len(), |i: int| (libs.last()[i], i as nat))
    }
}

/// The position of the first material whose effect is missing.
pub open spec fn first_missing(es: Seq<(MaterialEntryView, nat)>) -> Option<int>
    decreases es.len(),
{
    if es.len() == 0 {
        None
    } else {
        match first_missing(es.drop_last()) {
            Some(j) => Some(j),
            None => if !es.last().0.effect_found { Some(es.len() - 1) } else { None },
        }
    }
}

/// The name of the root node: the name of the one root node (found as
/// for any node, the counter at zero), or, for several, the scene's name,
/// else its id, else `ROOT`.
pub open spec fn root_name_spec(h: SceneHeadView, use_name: bool) -> Seq<char> {
    if h.roots.len() == 1 {
        let n = h.roots[0];
        node_name_view(n.name, n.id, n.sid, use_name, 0)
    } else {
        match h.name {
            Some(n) => n,
            None => match h.id {
                Some(i) => i,
                None => "ROOT"@,
            },
        }
    }
}

/// The scene a Collada document describes: no visual scene gives
/// `MissingVisualScene`; effects that cannot be mapped give
/// `FileFormatError`; the first material whose effect is missing gives
/// `MissingLocalMapEntry` with its URL; a visual scene without nodes gives
/// `MissingRootNode`. Otherwise the scene name, the material names in
/// library order, and the root node's name.
pub open spec fn import_collada_spec(doc: ColladaDocView, use_name: bool)
    -> Result<(Seq<char>, Seq<Seq<char>>, Seq<char>), ReadErrorView>
{
    match doc.visual_scene {
        None => Err(ReadErrorView::MissingVisualScene),
        Some(h) => match doc.materials {
            None => Err(ReadErrorView::FileFormatError),
            Some(libs) => {
                let es = library_entries(libs);
                match first_missing(es) {
                    Some(j) => Err(ReadErrorView::MissingLocalMapEntry(es[j].0.effect_url)),
                    None => if h.roots.len() == 0 {
                        Err(ReadErrorView::MissingRootNode)
                    } else {
                        Ok((
                            scene_name_spec(h),
                            es.map_values(|e: (MaterialEntryView, nat)| material_name_spec(e.0, e.1)),
                            root_name_spec(h, use_name),
                        ))
                    },
                }
            },
        },
    }
}

/// The texts of a list of strings.
pub open spec fn string_texts(v: Seq<String>) -> Seq<Seq<char>> {
    v.map_values(|s: String| s@)
}

fn copy_string(s: &String) -> (r: String)
    ensures
        r@ == s@,
{
    s.clone()
}

fn first_text(a: &Option<String>, b: &Option<String>) -> (r: Option<String>)
    ensures
        match *a {
            Some(x) => r is Some && r->0@ == x@,
            None => match *b {
                Some(y) => r is Some && r->0@ == y@,
                None => r is None,
            },
        },
{
    match a {
        Some(x) => Some(copy_string(x)),
        None => match b {
            Some(y) => Some(copy_string(y)),
            None => None,
        },
    }
}

proof fn lemma_first_missing_none(es: Seq<(MaterialEntryView, nat)>)
    requires
        forall|k: int| 0 <= k < es.len() ==> (#[trigger] es[k]).0.effect_found,
    ensures
        first_missing(es) is None,
    decreases es.len(),
{
    if es.len() > 0 {
        lemma_first_missing_none(es.drop_last());
    }
}

proof fn lemma_first_missing_at(es: Seq<(MaterialEntryView, nat)>, j: int)
    requires
        0 <= j < es.len(),
        !es[j].0.effect_found,
        forall|k: int| 0 <= k < j ==> (#[trigger] es[k]).0.effect_found,
    ensures
        first_missing(es) == Some(j),
    decreases es.len(),
{
    if j < es.len() - 1 {
        lemma_first_missing_at(es.drop_last(), j);
    } else {
        lemma_first_missing_none(es.drop_last());
    }
}

/// The names of the materials of all libraries, or the URL of the first
/// material whose effect is missing.
fn material_names(libs: &Vec<Vec<MaterialEntry>>) -> (r: Result<Vec<String>, String>)
    ensures
        ({
            let es = library_entries(libs_view(libs@));
            match first_missing(es) {
                Some(j) => r is Err && r->Err_0@ == es[j].0.effect_url,
                None => r is Ok && string_texts(r->Ok_0@)
                    == es.map_values(|e: (MaterialEntryView, nat)| material_name_spec(e.0, e.1)),
            }
        }),
{
    let ghost lv = libs_view(libs@);
    let mut names: Vec<String> = Vec::new();
    let mut l: usize = 0;
    assert(library_entries(lv.take(0)) =~= Seq::<(MaterialEntryView, nat)>::empty());
    while l < libs.len()
        invariant
            l <= libs@.len(),
            lv == libs_view(libs@),
            ({
                let es = library_entries(lv.take(l as int));
                &&& forall|k: int| 0 <= k < es.len() ==> (#[trigger] es[k]).0.effect_found
                &&& string_texts(names@) == es.map_values(|e: (MaterialEntryView, nat)| material_name_spec(e.0, e.1))
            }),
        decreases libs@.len() - l,
    {
        let lib = &libs[l];
        let ghost before = library_entries(lv.take(l as int));
        let ghost names0 = string_texts(names@);
        assert(lv.take(l + 1).drop_last() =~= lv.take(l as int));
        assert(lv.take(l + 1).last() == lib_view(*lib));
        let ghost here = Seq::new(lib@.len(), |i: int| (entry_view(lib@[i]), i as nat));
        assert(Seq::new(lib_view(*lib).len(), |i: int| (lib_view(*lib)[i], i as nat)) =~= here);
        assert(library_entries(lv.take(l + 1)) == before + here);
        let mut i: usize = 0;
        while i < lib.len()
            invariant
                i <= lib@.len(),
                forall|k: int| 0 <= k < before.len() ==> (#[trigger] before[k]).0.effect_found,
                forall|k: int| 0 <= k < i ==> (#[trigger] here[k]).0.effect_found,
                here == Seq::new(lib@.len(), |t: int| (entry_view(lib@[t]), t as nat)),
                names0 == before.map_values(|e: (MaterialEntryView, nat)| material_name_spec(e.0, e.1)),
                string_texts(names@) == (before + here.take(i as int)).map_values(
                    |e: (MaterialEntryView, nat)| material_name_spec(e.0, e.1),
                ),
                before == library_entries(lv.take(l as int)),
                library_entries(lv.take(l + 1)) == before + here,
                lv == libs_view(libs@),
                l < libs@.len(),
                *lib == libs@[l as int],
            decreases lib@.len() - i,
        {
            let e = &lib[i];
            assert(here[i as int] == (entry_view(*e), i as nat));
            if !e.effect_found {
                proof {
                    let es_all = library_entries(lv);
                    let pos = before.len() + i;
                    lemma_entries_prefix(lv, l as int + 1);
                    assert(es_all.take((before + here).len() as int) == before + here);
                    assert(es_all[pos] == (before + here)[pos]);
                    assert((before + here)[pos] == here[i as int]);
                    assert forall|k: int| 0 <= k < pos implies (#[trigger] es_all[k]).0.effect_found by {
                        assert(es_all[k] == (before + here)[k]);
                        if k >= before.len() {
                            assert((before + here)[k] == here[k - before.len()]);
                        }
                    }
                    lemma_first_missing_at(es_all, pos);
                }
                return Err(copy_string(&e.effect_url));
            }
            let name = match first_text(&e.name, &e.id) {
                Some(n) => n,
                None => string_from_chars(&decimal_chars(i)),
            };
            let ghost old_names = names@;
            names.push(name);
            proof {
                assert(name@ == material_name_spec(entry_view(*e), i as nat));
                assert(here.take(i + 1) =~= here.take(i as int).push(here[i as int]));
                assert((before + here.take(i + 1)) =~= (before + here.take(i as int)).push((entry_view(*e), i as nat)));
                assert(string_texts(names@) =~= string_texts(old_names).push(name@));
            }
            i = i + 1;
        }
        proof {
            assert(here.take(lib@.len() as int) =~= here);
            let es = library_entries(lv.take(l + 1));
            assert forall|k: int| 0 <= k < es.len() implies (#[trigger] es[k]).0.effect_found by {
                if k >= before.len() {
                    assert(es[k] == here[k - before.len()]);
                } else {
                    assert(es[k] == before[k]);
                }
            }
        }
        l = l + 1;
    }
    proof {
        assert(lv.take(lv.len() as int) =~= lv);
        lemma_first_missing_none(library_entries(lv));
    }
    Ok(names)
}

/// The entries of the first `k` libraries are the first entries of all.
proof fn lemma_entries_prefix(libs: Seq<Seq<MaterialEntryView>>, k: int)
    requires
        0 <= k <= libs.len(),
    ensures
        library_entries(libs).take(library_entries(libs.take(k)).len() as int) == library_entries(libs.take(k)),
        library_entries(libs.take(k)).len() <= library_entries(libs).len(),
    decreases libs.len(),
{
    if k == libs.len() {
        assert(libs.take(k) =~= libs);
        assert(library_entries(libs).take(library_entries(libs).len() as int) =~= library_entries(libs));
    } else {
        let d = libs.drop_last();
        assert(d.take(k) =~= libs.take(k));
        lemma_entries_prefix(d, k);
        let a = library_entries(libs);
        let b = library_entries(d);
        let c = library_entries(libs.take(k));
        assert(a.take(c.len() as int) =~= b.take(c.len() as int));
    }
}

/// Whether `r` is the scene read from `doc` (see `import_collada_spec`),
/// with its metadata from the document's asset.
pub open spec fn scene_read(r: Result<DaeScene, DaeReadError>, doc: ColladaDocView, use_name: bool) -> bool {
    match import_collada_spec(doc, use_name) {
        Err(e) => r is Err && error_view(r->Err_0) == e,
        Ok((name, materials, root)) => {
            &&& r is Ok
            &&& r->Ok_0.name@ == name
            &&& string_texts(r->Ok_0.materials@) == materials
            &&& r->Ok_0.root_name@ == root
            &&& r->Ok_0.metadata.wf()
            &&& texts(r->Ok_0.metadata.as_map()) == metadata_view_spec(doc.asset)
        },
    }
}

/// Reads the scene of a Collada document (see `scene_read`).
pub fn import_collada(doc: &ColladaDoc, importer: &DaeImporter) -> (r: Result<DaeScene, DaeReadError>)
    ensures
        scene_read(r, doc_view(*doc), importer.use_collada_name),
{
    let head = match &doc.visual_scene {
        None => return Err(DaeReadError::MissingVisualScene),
        Some(h) => h,
    };
    let libs = match &doc.materials {
        None => return Err(DaeReadError::FileFormatError),
        Some(l) => l,
    };
    let materials = match material_names(libs) {
        Err(url) => return Err(DaeReadError::MissingLocalMapEntry(url)),
        Ok(m) => m,
    };
    let name = match first_text(&head.name, &head.id) {
        Some(n) => n,
        None => String::new(),
    };
    let n_roots = head.roots.len();
    if n_roots == 0 {
        return Err(DaeReadError::MissingRootNode);
    }
    let root_name = if n_roots == 1 {
        let root = &head.roots[0];
        let mut counter: u32 = 0;
        proof {
            lemma_node_name_view(root.name, root.id, root.sid, importer.use_collada_name, 0);
            assert(head_view(*head).roots[0] == root_view(*root));
        }
        find_name_for_node(&root.name, &root.id, &root.sid, importer.use_collada_name, &mut counter)
    } else {
        match first_text(&head.name, &head.id) {
            Some(n) => n,
            None => {
                proof { reveal_strlit("ROOT"); }
                String::from_str("ROOT")
            },
        }
    };
    let metadata = import_metadata(&doc.asset);
    proof { lemma_metadata_view(doc.asset); }
    Ok(DaeScene { name, materials, root_name, metadata })
}

/// Whether a text parses as a Collada document.
pub uninterp spec fn collada_parses(text: Seq<char>) -> bool;

/// The main visual scene of the document a text parses to.
pub uninterp spec fn collada_scene_head(text: Seq<char>) -> Option<SceneHeadView>;

/// The material libraries of the document a text parses to (none when its
/// effects cannot be mapped by id).
pub uninterp spec fn collada_material_libraries(text: Seq<char>) -> Option<Seq<Seq<MaterialEntryView>>>;

/// The asset of the document a text parses to.
pub uninterp spec fn collada_asset(text: Seq<char>) -> AssetView;

/// What the scene import reads of the document a text parses to.
pub open spec fn collada_doc(text: Seq<char>) -> ColladaDocView {
    ColladaDocView {
        visual_scene: collada_scene_head(text),
        materials: collada_material_libraries(text),
        asset: collada_asset(text),
    }
}

/// Parses a Collada document from its text (`dae_parser::Document`'s
/// `FromStr`, which reads the text as XML, as `from_reader` does) and takes
/// its main visual scene (`Document::get_visual_scene`): its name, its id
/// and the name, id and sid of each root node. The contract claims that the
/// parse succeeds exactly when the text parses, and that the scene is a
/// function of the text alone, named `collada_scene_head`.
#[verifier::external_body]
fn read_scene_head(text: &str) -> (r: Option<Option<SceneHead>>)
    ensures
        r is Some <==> collada_parses(text@),
        r matches Some(h) ==> opt_head_view(h) == collada_scene_head(text@),
{
    let d = text.parse::<dae_parser::Document>().ok()?;
    Some(d.get_visual_scene().map(|v| SceneHead {
        name: v.name.clone(),
        id: v.id.clone(),
        roots: v.nodes.iter().map(|n| RootNode { name: n.name.clone(), id: n.id.clone(), sid: n.sid.clone() }).collect(),
    }))
}

/// Parses a Collada document from its text (as `read_scene_head` does) and
/// takes its material libraries (`Document::library_iter`), each material
/// with its effect URL as text and whether the document's map of effects by
/// id (`Document::local_map`) holds that URL; none when that map cannot be
/// built. The contract claims that the parse succeeds exactly when the
/// text parses, and that the libraries are a function of the text alone,
/// named `collada_material_libraries`.
#[verifier::external_body]
fn read_material_libraries(text: &str) -> (r: Option<Option<Vec<Vec<MaterialEntry>>>>)
    ensures
        r is Some <==> collada_parses(text@),
        r matches Some(ls) ==> opt_libs_view(ls) == collada_material_libraries(text@),
{
    let d = text.parse::<dae_parser::Document>().ok()?;
    Some(d.local_map::<dae_parser::Effect>().ok().map(|effects| d.library_iter::<dae_parser::Material>().map(|l| {
        l.items.iter().map(|m| MaterialEntry {
            name: m.name.clone(),
            id: m.id.clone(),
            effect_url: m.instance_effect.url.to_string(),
            effect_found: effects.get(&m.instance_effect.url).is_some(),
        }).collect()
    }).collect()))
}

/// Parses a Collada document from its text (as `read_scene_head` does) and
/// takes its asset, the dates written out (`Display` of the parser's dates)
/// and each contributor's source URL as text. The contract claims that the
/// parse succeeds exactly when the text parses, and that the asset is a
/// function of the text alone, named `collada_asset`.
#[verifier::external_body]
fn read_asset(text: &str) -> (r: Option<AssetInfo>)
    ensures
        r is Some <==> collada_parses(text@),
        r matches Some(a) ==> asset_view(a) == collada_asset(text@),
{
    let a = text.parse::<dae_parser::Document>().ok()?.asset;
    Some(AssetInfo {
        contributors: a.contributor.into_iter().map(|c| ContributorInfo {
            author: c.author, authoring_tool: c.authoring_tool, comments: c.comments,
            copyright: c.copyright, source_data: c.source_data.map(|u| u.to_string()),
        }).collect(),
        created: a.created.to_string(),
        modified: a.modified.to_string(),
        keywords: a.keywords, revision: a.revision, subject: a.subject, title: a.title,
    })
}

/// Reads the scene of a Collada document's text: a text that does not
/// parse gives `FileFormatError`; otherwise the scene read (see
/// `scene_read`) from what the parsed document holds (`collada_doc`).
pub fn read_collada(text: &str, importer: &DaeImporter) -> (r: Result<DaeScene, DaeReadError>)
    ensures
        !collada_parses(text@) ==> r is Err && error_view(r->Err_0) == ReadErrorView::FileFormatError,
        collada_parses(text@) ==> scene_read(r, collada_doc(text@), importer.use_collada_name),
{
    let visual_scene = match read_scene_head(text) {
        None => return Err(DaeReadError::FileFormatError),
        Some(h) => h,
    };
    let materials = match read_material_libraries(text) {
        None => return Err(DaeReadError::FileFormatError),
        Some(m) => m,
    };
    let asset = match read_asset(text) {
        None => return Err(DaeReadError::FileFormatError),
        Some(a) => a,
    };
    let doc = ColladaDoc { visual_scene, materials, asset };
    import_collada(&doc, importer)
}

} // verus!
