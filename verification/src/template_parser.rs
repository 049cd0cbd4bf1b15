//! The template pipeline's pure core: discovery of a template tree's
//! structure, computation of every destination path and file content the
//! pipeline would write, and the pre-flight conflict check against the
//! destination. Reading the tree, probing the destination and writing
//! files stay with the caller; this module only computes.

use vstd::prelude::*;
use vstd::utf8::decode_utf8;
use vstd::utf8::valid_utf8;

use crate::context::VarContext;
use crate::error::ScaffoldError;
use crate::render::RenderOutcome;
use crate::render::renders_with_fresh_uids;
use crate::substitute::path_subst_diverges;
use crate::substitute::path_subst_missing;
use crate::substitute::path_subst_ok;
use crate::substitute::spec_joined_path;

verus! {

/// One regular file of the source template tree, as the tree source
/// hands it over: its path split into components (`None` when the path
/// is not representable as text), and its raw bytes.
#[derive(Debug)]
pub struct SourceEntry {
    pub path: Option<Vec<String>>,
    pub content: Vec<u8>,
}

/// The abstract value of a [`SourceEntry`].
pub struct SourceEntryView {
    pub path: Option<Seq<Seq<char>>>,
    pub content: Seq<u8>,
}

impl View for SourceEntry {
    type V = SourceEntryView;

    open spec fn view(&self) -> SourceEntryView {
        SourceEntryView {
            path: match self.path {
                Option::Some(p) => Option::Some(p.deep_view()),
                Option::None => Option::None,
            },
            content: self.content@,
        }
    }
}

impl DeepView for SourceEntry {
    type V = SourceEntryView;

    open spec fn deep_view(&self) -> SourceEntryView {
        self.view()
    }
}

/// A discovered file: its path relative to the template root, and its
/// raw bytes.
#[derive(Debug)]
pub struct TemplateFile {
    pub rel_path: Vec<String>,
    pub content: Vec<u8>,
}

/// The abstract value of a [`TemplateFile`].
pub struct TemplateFileView {
    pub rel_path: Seq<Seq<char>>,
    pub content: Seq<u8>,
}

impl View for TemplateFile {
    type V = TemplateFileView;

    open spec fn view(&self) -> TemplateFileView {
        TemplateFileView { rel_path: self.rel_path.deep_view(), content: self.content@ }
    }
}

impl DeepView for TemplateFile {
    type V = TemplateFileView;

    open spec fn deep_view(&self) -> TemplateFileView {
        self.view()
    }
}

/// The discovered shape of a template tree: the renderable files (whose
/// name carries the template marker) and the static files (copied
/// byte for byte).
#[derive(Debug)]
pub struct TemplateStructure {
    pub renderable_files: Vec<TemplateFile>,
    pub static_files: Vec<TemplateFile>,
}

/// The template marker: the suffix that makes a file renderable.
pub open spec fn marker() -> Seq<char> {
    seq!['.', 't', 'e', 'r', 'a']
}

/// True when the component `c` ends with the template marker after a
/// non-empty stem.
pub open spec fn component_is_marked(c: Seq<char>) -> bool {
    c.len() >= 6 && c.subrange(c.len() - 5, c.len() as int) == marker()
}

/// True when a relative path names a renderable file.
pub open spec fn path_is_renderable(p: Seq<Seq<char>>) -> bool {
    p.len() > 0 && component_is_marked(p.last())
}

/// True when `base` is a leading run of `p`'s components.
pub open spec fn is_path_prefix(base: Seq<Seq<char>>, p: Seq<Seq<char>>) -> bool {
    base.len() <= p.len() && p.subrange(0, base.len() as int) == base
}

/// `p` with the leading `base` components removed where `base` is a
/// prefix, and unchanged where it is not.
pub open spec fn strip_base(p: Seq<Seq<char>>, base: Seq<Seq<char>>) -> Seq<Seq<char>> {
    if is_path_prefix(base, p) {
        p.subrange(base.len() as int, p.len() as int)
    } else {
        p
    }
}

/// The path of `e`, the empty path standing in for an unrepresentable
/// one.
pub open spec fn entry_path_or_empty(e: SourceEntryView) -> Seq<Seq<char>> {
    match e.path {
        Option::Some(p) => p,
        Option::None => Seq::<Seq<char>>::empty(),
    }
}

/// True when every entry's path is representable as text.
pub open spec fn all_paths_ok(es: Seq<SourceEntryView>) -> bool {
    forall|i: int| 0 <= i < es.len() ==> (#[trigger] es[i]).path is Some
}

/// The partition discovery computes: for each entry in order, its path
/// relative to `base`, sorted into renderable and static files by the
/// template marker.
pub open spec fn spec_discover(es: Seq<SourceEntryView>, base: Seq<Seq<char>>) -> (
    Seq<TemplateFileView>,
    Seq<TemplateFileView>,
)
    decreases es.len(),
{
    if es.len() == 0 {
        (Seq::<TemplateFileView>::empty(), Seq::<TemplateFileView>::empty())
    } else {
        let (r, st) = spec_discover(es.drop_last(), base);
        let e = es.last();
        let p = strip_base(entry_path_or_empty(e), base);
        if path_is_renderable(p) {
            (r.push(TemplateFileView { rel_path: p, content: e.content }), st)
        } else {
            (r, st.push(TemplateFileView { rel_path: p, content: e.content }))
        }
    }
}

/// Law: the two file sets discovery computes partition the template
/// tree's regular files. Together they cover every entry, every
/// renderable file's path carries the template marker, and no static
/// file's path does, so the sets are disjoint.
pub proof fn lemma_discover_partitions(es: Seq<SourceEntryView>, base: Seq<Seq<char>>)
    ensures
        spec_discover(es, base).0.len() + spec_discover(es, base).1.len() == es.len(),
        forall|k: int|
            0 <= k < spec_discover(es, base).0.len() ==> path_is_renderable(
                (#[trigger] spec_discover(es, base).0[k]).rel_path,
            ),
        forall|k: int|
            0 <= k < spec_discover(es, base).1.len() ==> !path_is_renderable(
                (#[trigger] spec_discover(es, base).1[k]).rel_path,
            ),
    decreases es.len(),
{
    if es.len() > 0 {
        lemma_discover_partitions(es.drop_last(), base);
        let (pr, ps) = spec_discover(es.drop_last(), base);
        let (r, st) = spec_discover(es, base);
        let p = strip_base(entry_path_or_empty(es.last()), base);
        if path_is_renderable(p) {
            assert(r == pr.push(TemplateFileView { rel_path: p, content: es.last().content }));
            assert forall|k: int| 0 <= k < r.len() implies path_is_renderable(
                (#[trigger] r[k]).rel_path,
            ) by {
                if k < pr.len() {
                    assert(r[k] == pr[k]);
                }
            }
        } else {
            assert(st == ps.push(TemplateFileView { rel_path: p, content: es.last().content }));
            assert forall|k: int| 0 <= k < st.len() implies !path_is_renderable(
                (#[trigger] st[k]).rel_path,
            ) by {
                if k < ps.len() {
                    assert(st[k] == ps[k]);
                }
            }
        }
    }
}

/// Copies a vector of path components.
fn clone_components(v: &Vec<String>) -> (r: Vec<String>)
    ensures
        r.deep_view() == v.deep_view(),
{
    let mut r: Vec<String> = Vec::new();
    let mut i: usize = 0;
    while i < v.len()
        invariant
            i <= v@.len(),
            r.deep_view().len() == i as int,
            forall|j: int| 0 <= j < i ==> r.deep_view()[j] == #[trigger] v.deep_view()[j],
        decreases v@.len() - i,
    {
        let ghost prev = r.deep_view();
        r.push(v[i].clone());
        i += 1;
        proof {
            assert(r.deep_view() =~= prev.push(v@[i - 1]@));
        }
    }
    proof {
        assert(r.deep_view() =~= v.deep_view());
    }
    r
}

/// Copies a byte vector.
fn clone_bytes(v: &Vec<u8>) -> (r: Vec<u8>)
    ensures
        r@ == v@,
{
    let mut r: Vec<u8> = Vec::new();
    let mut i: usize = 0;
    while i < v.len()
        invariant
            i <= v@.len(),
            r@ == v@.subrange(0, i as int),
        decreases v@.len() - i,
    {
        r.push(v[i]);
        i += 1;
        proof {
            assert(r@ =~= v@.subrange(0, i as int));
        }
    }
    proof {
        assert(r@ =~= v@);
    }
    r
}

/// Checks the component for the template marker.
fn is_marked_component(c: &String) -> (b: bool)
    ensures
        b == component_is_marked(c@),
{
    let n = c.as_str().unicode_len();
    if n < 6 {
        return false;
    }
    let s = c.as_str();
    let b = s.get_char(n - 5) == '.' && s.get_char(n - 4) == 't' && s.get_char(n - 3) == 'e'
        && s.get_char(n - 2) == 'r' && s.get_char(n - 1) == 'a';
    proof {
        if b {
            assert(c@.subrange(n - 5, n as int) =~= marker());
        } else {
            assert(c@.subrange(n - 5, n as int) != marker());
        }
    }
    b
}

/// Strips the leading `base` components from `p` when they are a
/// prefix; returns `p` unchanged otherwise.
fn strip_base_components(p: &Vec<String>, base: &Vec<String>) -> (r: Vec<String>)
    ensures
        r.deep_view() == strip_base(p.deep_view(), base.deep_view()),
{
    let ghost pv = p.deep_view();
    let ghost bv = base.deep_view();
    if base.len() > p.len() {
        proof {
            assert(!is_path_prefix(bv, pv));
        }
        return clone_components(p);
    }
    let mut i: usize = 0;
    while i < base.len()
        invariant
            i <= base@.len() <= p@.len(),
            pv == p.deep_view(),
            bv == base.deep_view(),
            forall|j: int| 0 <= j < i ==> pv[j] == #[trigger] bv[j],
        decreases base@.len() - i,
    {
        if !crate::chars::str_eq(p[i].as_str(), base[i].as_str()) {
            proof {
                assert(pv[i as int] != bv[i as int]);
                assert(pv.subrange(0, bv.len() as int)[i as int] == pv[i as int]);
                assert(!is_path_prefix(bv, pv));
            }
            return clone_components(p);
        }
        i += 1;
    }
    proof {
        assert(pv.subrange(0, bv.len() as int) =~= bv);
        assert(is_path_prefix(bv, pv));
    }
    let mut r: Vec<String> = Vec::new();
    let mut k = base.len();
    while k < p.len()
        invariant
            base@.len() <= k <= p@.len(),
            pv == p.deep_view(),
            bv == base.deep_view(),
            r.deep_view().len() == k - bv.len(),
            forall|j: int|
                0 <= j < k - bv.len() ==> r.deep_view()[j] == #[trigger] pv[bv.len() + j],
        decreases p@.len() - k,
    {
        let ghost prev = r.deep_view();
        r.push(p[k].clone());
        k += 1;
        proof {
            assert(r.deep_view() =~= prev.push(pv[k - 1]));
        }
    }
    proof {
        assert(r.deep_view().len() == pv.len() - bv.len());
        assert forall|j: int| 0 <= j < r.deep_view().len() implies r.deep_view()[j] == pv.subrange(
            bv.len() as int,
            pv.len() as int,
        )[j] by {
            assert(r.deep_view()[j] == pv[bv.len() + j]);
            assert(pv.subrange(bv.len() as int, pv.len() as int)[j] == pv[bv.len() + j]);
        }
        assert(r.deep_view() =~= pv.subrange(bv.len() as int, pv.len() as int));
    }
    r
}

/// Enumerates a template tree's regular files into the renderable and
/// the static set, recording each file's path relative to the template
/// root. Fails when any path is not representable as text.
pub fn discover_template_structure(entries: &Vec<SourceEntry>, base_prefix: &Vec<String>) -> (r:
    Result<TemplateStructure, ScaffoldError>)
    ensures
        match r {
            Ok(ts) => {
                &&& all_paths_ok(entries.deep_view())
                &&& ts.renderable_files.deep_view() == spec_discover(
                    entries.deep_view(),
                    base_prefix.deep_view(),
                ).0
                &&& ts.static_files.deep_view() == spec_discover(
                    entries.deep_view(),
                    base_prefix.deep_view(),
                ).1
            },
            Err(e) => {
                &&& e matches ScaffoldError::InvalidEncoding { .. }
                &&& !all_paths_ok(entries.deep_view())
            },
        },
{
    let ghost es = entries.deep_view();
    let ghost bv = base_prefix.deep_view();
    let mut renderable_files: Vec<TemplateFile> = Vec::new();
    let mut static_files: Vec<TemplateFile> = Vec::new();
    let mut i: usize = 0;
    while i < entries.len()
        invariant
            i <= entries@.len(),
            es == entries.deep_view(),
            bv == base_prefix.deep_view(),
            forall|j: int| 0 <= j < i ==> (#[trigger] es[j]).path is Some,
            renderable_files.deep_view() == spec_discover(es.take(i as int), bv).0,
            static_files.deep_view() == spec_discover(es.take(i as int), bv).1,
        decreases entries@.len() - i,
    {
        proof {
            assert(es[i as int] == entries@[i as int]@);
        }
        let path = match &entries[i].path {
            Option::Some(p) => p,
            Option::None => {
                proof {
                    assert((#[trigger] es[i as int]).path is None);
                    assert(!all_paths_ok(es));
                }
                return Err(ScaffoldError::InvalidEncoding { path: String::new() });
            },
        };
        let rel = strip_base_components(path, base_prefix);
        let content = clone_bytes(&entries[i].content);
        let renderable = if rel.len() > 0 {
            is_marked_component(&rel[rel.len() - 1])
        } else {
            false
        };
        let ghost prev_r = renderable_files.deep_view();
        let ghost prev_s = static_files.deep_view();
        let tf = TemplateFile { rel_path: rel, content };
        let ghost tfv = tf@;
        if renderable {
            renderable_files.push(tf);
        } else {
            static_files.push(tf);
        }
        i += 1;
        proof {
            assert(es.take(i as int).drop_last() =~= es.take(i - 1));
            assert(es.take(i as int).last() == es[i - 1]);
            assert(entry_path_or_empty(es[i - 1]) == path.deep_view());
            assert(tfv.rel_path == strip_base(entry_path_or_empty(es[i - 1]), bv));
            if renderable {
                assert(renderable_files.deep_view() =~= prev_r.push(tfv));
                assert(spec_discover(es.take(i as int), bv).0 =~= prev_r.push(
                    TemplateFileView {
                        rel_path: strip_base(entry_path_or_empty(es[i - 1]), bv),
                        content: es[i - 1].content,
                    },
                ));
            } else {
                assert(static_files.deep_view() =~= prev_s.push(tfv));
                assert(spec_discover(es.take(i as int), bv).1 =~= prev_s.push(
                    TemplateFileView {
                        rel_path: strip_base(entry_path_or_empty(es[i - 1]), bv),
                        content: es[i - 1].content,
                    },
                ));
            }
        }
    }
    proof {
        assert(es.take(es.len() as int) =~= es);
    }
    Ok(TemplateStructure { renderable_files, static_files })
}

/// What the pipeline would write to one destination path: text rendered
/// from a template, or bytes copied unchanged.
#[derive(Debug)]
pub enum WriteContent {
    Rendered(String),
    Copied(Vec<u8>),
}

/// The abstract value of a [`WriteContent`].
pub enum WriteContentView {
    Rendered(Seq<char>),
    Copied(Seq<u8>),
}

impl View for WriteContent {
    type V = WriteContentView;

    open spec fn view(&self) -> WriteContentView {
        match self {
            WriteContent::Rendered(s) => WriteContentView::Rendered(s@),
            WriteContent::Copied(b) => WriteContentView::Copied(b@),
        }
    }
}

impl DeepView for WriteContent {
    type V = WriteContentView;

    open spec fn deep_view(&self) -> WriteContentView {
        self.view()
    }
}

/// One intended write: the destination path relative to the destination
/// root, and the content to put there.
#[derive(Debug)]
pub struct PlannedFile {
    pub dest_path: Vec<String>,
    pub content: WriteContent,
}

/// The abstract value of a [`PlannedFile`].
pub struct PlannedFileView {
    pub dest_path: Seq<Seq<char>>,
    pub content: WriteContentView,
}

impl View for PlannedFile {
    type V = PlannedFileView;

    open spec fn view(&self) -> PlannedFileView {
        PlannedFileView { dest_path: self.dest_path.deep_view(), content: self.content@ }
    }
}

impl DeepView for PlannedFile {
    type V = PlannedFileView;

    open spec fn deep_view(&self) -> PlannedFileView {
        self.view()
    }
}

/// A renderable path with the template marker removed from its file
/// name.
pub open spec fn strip_marker_path(p: Seq<Seq<char>>) -> Seq<Seq<char>>
    recommends
        path_is_renderable(p),
{
    p.drop_last().push(p.last().subrange(0, p.last().len() - 5))
}

/// True when the bytes of a renderable file decode as text that renders
/// to `text` with some batch of fresh identifiers.
pub open spec fn content_renders_to(bytes: Seq<u8>, ctx: VarContext, text: Seq<char>) -> bool {
    valid_utf8(bytes) && renders_with_fresh_uids(
        decode_utf8(bytes),
        ctx,
        RenderOutcome::Done(text),
    )
}

/// True when rendering the decoded bytes stops on the missing variable
/// `name`.
pub open spec fn content_render_missing(bytes: Seq<u8>, ctx: VarContext, name: Seq<char>) -> bool {
    valid_utf8(bytes) && renders_with_fresh_uids(
        decode_utf8(bytes),
        ctx,
        RenderOutcome::MissingVar(name),
    )
}

/// True when the decoded bytes hold a placeholder token that is never
/// closed.
pub open spec fn content_render_malformed(bytes: Seq<u8>, ctx: VarContext) -> bool {
    valid_utf8(bytes) && renders_with_fresh_uids(decode_utf8(bytes), ctx, RenderOutcome::Malformed)
}

/// True when substituting a renderable file's path strips or mangles
/// its template marker, leaving no name to write the output under.
pub open spec fn renderable_marker_lost(f: TemplateFileView, ctx: VarContext) -> bool {
    exists|sub: Seq<Seq<char>>|
        #[trigger] path_subst_ok(f.rel_path, ctx, sub) && !path_is_renderable(sub)
}

/// True when the planned write `out` is what materialising the
/// renderable file `f` produces: its substituted path with the marker
/// stripped, and its content rendered.
pub open spec fn planned_renderable(
    f: TemplateFileView,
    ctx: VarContext,
    out: PlannedFileView,
) -> bool {
    exists|sub: Seq<Seq<char>>|
        {
            &&& #[trigger] path_subst_ok(f.rel_path, ctx, sub)
            &&& path_is_renderable(sub)
            &&& out.dest_path == strip_marker_path(sub)
            &&& out.content matches WriteContentView::Rendered(text) && content_renders_to(
                f.content,
                ctx,
                text,
            )
        }
}

/// True when the planned write `out` is what materialising the static
/// file `f` produces: its substituted path, and its bytes unchanged.
pub open spec fn planned_static(f: TemplateFileView, ctx: VarContext, out: PlannedFileView) -> bool {
    exists|sub: Seq<Seq<char>>|
        {
            &&& #[trigger] path_subst_ok(f.rel_path, ctx, sub)
            &&& out.dest_path == sub
            &&& out.content == WriteContentView::Copied(f.content)
        }
}

/// True when some file of the structure fails over the missing
/// variable `name`, in a path component or in rendered content.
pub open spec fn plan_missing_name(
    rs: Seq<TemplateFileView>,
    ss: Seq<TemplateFileView>,
    ctx: VarContext,
    name: Seq<char>,
) -> bool {
    ||| exists|i: int|
        0 <= i < rs.len() && (path_subst_missing((#[trigger] rs[i]).rel_path, ctx, name)
            || content_render_missing(rs[i].content, ctx, name))
    ||| exists|i: int|
        0 <= i < ss.len() && path_subst_missing((#[trigger] ss[i]).rel_path, ctx, name)
}

/// True when some renderable file's bytes are not valid text.
pub open spec fn plan_bad_encoding(rs: Seq<TemplateFileView>) -> bool {
    exists|i: int| 0 <= i < rs.len() && !valid_utf8((#[trigger] rs[i]).content)
}

/// True when some file of the structure fails to render: a lost
/// template marker, malformed placeholder syntax, or path substitution
/// that never finishes.
pub open spec fn plan_render_failure(
    rs: Seq<TemplateFileView>,
    ss: Seq<TemplateFileView>,
    ctx: VarContext,
) -> bool {
    ||| exists|i: int|
        0 <= i < rs.len() && (renderable_marker_lost(#[trigger] rs[i], ctx)
            || content_render_malformed(rs[i].content, ctx) || path_subst_diverges(
            rs[i].rel_path,
            ctx,
        ))
    ||| exists|i: int|
        0 <= i < ss.len() && path_subst_diverges((#[trigger] ss[i]).rel_path, ctx)
}

/// True when the error `e` is one that planning the structure can
/// actually produce.
pub open spec fn plan_error(
    rs: Seq<TemplateFileView>,
    ss: Seq<TemplateFileView>,
    ctx: VarContext,
    e: ScaffoldError,
) -> bool {
    match e {
        ScaffoldError::MissingVariable { name, .. } => plan_missing_name(rs, ss, ctx, name@),
        ScaffoldError::InvalidEncoding { .. } => plan_bad_encoding(rs),
        ScaffoldError::RenderError { .. } => plan_render_failure(rs, ss, ctx),
        _ => false,
    }
}

/// Relies on `std::str::from_utf8`: it succeeds exactly on byte
/// sequences that are valid UTF-8 and decodes them to their character
/// sequence.
#[verifier::external_body]
fn bytes_to_utf8(v: &Vec<u8>) -> (r: Option<String>)
    ensures
        match r {
            Some(s) => valid_utf8(v@) && s@ == decode_utf8(v@),
            None => !valid_utf8(v@),
        },
{
    std::str::from_utf8(v).ok().map(|s| s.to_string())
}

/// The substituted path of one renderable file with the marker removed
/// from its last component.
fn strip_marker_components(sub: &Vec<String>) -> (r: Result<Vec<String>, ()>)
    ensures
        match r {
            Ok(dest) => path_is_renderable(sub.deep_view()) && dest.deep_view()
                == strip_marker_path(sub.deep_view()),
            Err(()) => !path_is_renderable(sub.deep_view()),
        },
{
    let ghost sv = sub.deep_view();
    if sub.len() == 0 {
        return Err(());
    }
    let last = &sub[sub.len() - 1];
    if !is_marked_component(last) {
        proof {
            assert(sv.last() == last@);
        }
        return Err(());
    }
    let n = last.as_str().unicode_len();
    let lv = crate::chars::str_to_chars(last.as_str());
    let mut stem: Vec<char> = Vec::new();
    crate::chars::append_range(&mut stem, &lv, 0, n - 5);
    let stem_s = crate::chars::chars_to_string(&stem);
    let mut dest: Vec<String> = Vec::new();
    let m = sub.len() - 1;
    let mut i: usize = 0;
    while i < m
        invariant
            m == sub@.len() - 1,
            i <= m,
            sv == sub.deep_view(),
            dest.deep_view().len() == i as int,
            forall|j: int| 0 <= j < i ==> dest.deep_view()[j] == #[trigger] sv[j],
        decreases sub@.len() - i,
    {
        let ghost prev = dest.deep_view();
        dest.push(sub[i].clone());
        i += 1;
        proof {
            assert(dest.deep_view() =~= prev.push(sv[i - 1]));
        }
    }
    let ghost prev = dest.deep_view();
    dest.push(stem_s);
    proof {
        assert(sv.last() == last@);
        assert(dest.deep_view() =~= prev.push(last@.subrange(0, last@.len() - 5)));
        assert forall|j: int| 0 <= j < dest.deep_view().len() implies dest.deep_view()[j]
            == strip_marker_path(sv)[j] by {
            if j < dest.deep_view().len() - 1 {
                assert(strip_marker_path(sv)[j] == sv.drop_last()[j]);
                assert(sv.drop_last()[j] == sv[j]);
            }
        }
        assert(dest.deep_view() =~= strip_marker_path(sv));
    }
    Ok(dest)
}

/// Computes every write the pipeline would make for the discovered
/// structure: renderable files first, each with its substituted path,
/// the marker stripped and its content rendered; then static files,
/// each with its substituted path and its bytes unchanged. Fails, before
/// anything is written, on a missing variable, unrenderable content or
/// an undecodable renderable file.
pub fn plan_writes(structure: &TemplateStructure, context: &VarContext) -> (r: Result<
    Vec<PlannedFile>,
    ScaffoldError,
>)
    ensures
        match r {
            Ok(out) => {
                &&& out.deep_view().len() == structure.renderable_files.deep_view().len()
                    + structure.static_files.deep_view().len()
                &&& forall|i: int|
                    0 <= i < structure.renderable_files.deep_view().len() ==> planned_renderable(
                        #[trigger] structure.renderable_files.deep_view()[i],
                        *context,
                        out.deep_view()[i],
                    )
                &&& forall|i: int|
                    0 <= i < structure.static_files.deep_view().len() ==> planned_static(
                        #[trigger] structure.static_files.deep_view()[i],
                        *context,
                        out.deep_view()[structure.renderable_files.deep_view().len() + i],
                    )
            },
            Err(e) => plan_error(
                structure.renderable_files.deep_view(),
                structure.static_files.deep_view(),
                *context,
                e,
            ),
        },
{
    let ghost rs = structure.renderable_files.deep_view();
    let ghost ss = structure.static_files.deep_view();
    let mut out: Vec<PlannedFile> = Vec::new();
    let mut i: usize = 0;
    while i < structure.renderable_files.len()
        invariant
            i <= structure.renderable_files@.len(),
            rs == structure.renderable_files.deep_view(),
            ss == structure.static_files.deep_view(),
            out.deep_view().len() == i as int,
            forall|j: int|
                0 <= j < i ==> planned_renderable(
                    #[trigger] rs[j],
                    *context,
                    out.deep_view()[j],
                ),
        decreases structure.renderable_files@.len() - i,
    {
        proof {
            assert(rs[i as int] == structure.renderable_files@[i as int]@);
        }
        let f = &structure.renderable_files[i];
        let sub = match crate::substitute::substitute_path_variables(&f.rel_path, context) {
            Ok(sub) => sub,
            Err(e) => {
                proof {
                    match e {
                        ScaffoldError::MissingVariable { ref name, .. } => {
                            assert(path_subst_missing(rs[i as int].rel_path, *context, name@));
                        },
                        ScaffoldError::RenderError { .. } => {
                            assert(path_subst_diverges(rs[i as int].rel_path, *context));
                        },
                        _ => {},
                    }
                }
                return Err(e);
            },
        };
        let dest = match strip_marker_components(&sub) {
            Ok(dest) => dest,
            Err(()) => {
                let joined = crate::substitute::join_components(&f.rel_path);
                proof {
                    assert(path_subst_ok(rs[i as int].rel_path, *context, sub.deep_view()));
                    assert(renderable_marker_lost(rs[i as int], *context));
                }
                return Err(
                    ScaffoldError::RenderError {
                        template: joined,
                        message: "substituted path does not end with the template marker"
                            .to_owned(),
                    },
                );
            },
        };
        let text = match bytes_to_utf8(&f.content) {
            Some(text) => text,
            None => {
                let joined = crate::substitute::join_components(&f.rel_path);
                proof {
                    assert(!valid_utf8(rs[i as int].content));
                }
                return Err(ScaffoldError::InvalidEncoding { path: joined });
            },
        };
        let joined = crate::substitute::join_components(&f.rel_path);
        let rendered = match crate::render::render_content(
            joined.as_str(),
            text.as_str(),
            context,
        ) {
            Ok(rendered) => rendered,
            Err(e) => {
                proof {
                    match e {
                        ScaffoldError::MissingVariable { ref name, .. } => {
                            assert(content_render_missing(
                                rs[i as int].content,
                                *context,
                                name@,
                            ));
                        },
                        ScaffoldError::RenderError { .. } => {
                            assert(content_render_malformed(rs[i as int].content, *context));
                        },
                        _ => {},
                    }
                }
                return Err(e);
            },
        };
        let ghost prev = out.deep_view();
        let ghost subv = sub.deep_view();
        let pf = PlannedFile { dest_path: dest, content: WriteContent::Rendered(rendered) };
        let ghost pfv = pf@;
        out.push(pf);
        i += 1;
        proof {
            assert(out.deep_view() =~= prev.push(pfv));
            assert(path_subst_ok(rs[i - 1].rel_path, *context, subv));
            assert(planned_renderable(rs[i - 1], *context, pfv));
            assert forall|j: int| 0 <= j < i implies planned_renderable(
                #[trigger] rs[j],
                *context,
                out.deep_view()[j],
            ) by {
                if j < i - 1 {
                    assert(out.deep_view()[j] == prev[j]);
                } else {
                    assert(out.deep_view()[j] == pfv);
                }
            }
        }
    }
    let ghost nr = rs.len();
    let mut k: usize = 0;
    while k < structure.static_files.len()
        invariant
            k <= structure.static_files@.len(),
            rs == structure.renderable_files.deep_view(),
            ss == structure.static_files.deep_view(),
            nr == rs.len(),
            out.deep_view().len() == nr + k,
            forall|j: int|
                0 <= j < nr ==> planned_renderable(#[trigger] rs[j], *context, out.deep_view()[j]),
            forall|j: int|
                0 <= j < k ==> planned_static(#[trigger] ss[j], *context, out.deep_view()[nr + j]),
        decreases structure.static_files@.len() - k,
    {
        proof {
            assert(ss[k as int] == structure.static_files@[k as int]@);
        }
        let f = &structure.static_files[k];
        let sub = match crate::substitute::substitute_path_variables(&f.rel_path, context) {
            Ok(sub) => sub,
            Err(e) => {
                proof {
                    match e {
                        ScaffoldError::MissingVariable { ref name, .. } => {
                            assert(path_subst_missing(ss[k as int].rel_path, *context, name@));
                        },
                        ScaffoldError::RenderError { .. } => {
                            assert(path_subst_diverges(ss[k as int].rel_path, *context));
                        },
                        _ => {},
                    }
                }
                return Err(e);
            },
        };
        let bytes = clone_bytes(&f.content);
        let ghost prev = out.deep_view();
        let ghost subv = sub.deep_view();
        let pf = PlannedFile { dest_path: sub, content: WriteContent::Copied(bytes) };
        let ghost pfv = pf@;
        out.push(pf);
        k += 1;
        proof {
            assert(out.deep_view() =~= prev.push(pfv));
            assert(path_subst_ok(ss[k - 1].rel_path, *context, subv));
            assert(planned_static(ss[k - 1], *context, pfv));
            assert forall|j: int| 0 <= j < k implies planned_static(
                #[trigger] ss[j],
                *context,
                out.deep_view()[nr + j],
            ) by {
                if j < k - 1 {
                    assert(out.deep_view()[nr + j] == prev[nr + j]);
                } else {
                    assert(out.deep_view()[nr + j] == pfv);
                }
            }
            assert forall|j: int| 0 <= j < nr implies planned_renderable(
                #[trigger] rs[j],
                *context,
                out.deep_view()[j],
            ) by {
                assert(out.deep_view()[j] == prev[j]);
            }
        }
    }
    Ok(out)
}

/// The destination paths of `planned` that already exist, joined for
/// display, in the order the pipeline would have written them.
pub open spec fn spec_conflicts(planned: Seq<PlannedFileView>, existing: Seq<bool>) -> Seq<
    Seq<char>,
>
    recommends
        planned.len() == existing.len(),
    decreases planned.len(),
{
    if planned.len() == 0 {
        Seq::<Seq<char>>::empty()
    } else {
        let rest = spec_conflicts(planned.drop_last(), existing.drop_last());
        if existing.len() > 0 && existing.last() {
            rest.push(spec_joined_path(planned.last().dest_path))
        } else {
            rest
        }
    }
}

/// The pre-flight conflict check: given whether the destination root
/// exists and, for every planned write, whether its destination path
/// already exists, reports the missing root, or every colliding path at
/// once, before anything is written.
pub fn validate_destination(dest_exists: bool, planned: &Vec<PlannedFile>, existing: &Vec<bool>) -> (r:
    Result<(), ScaffoldError>)
    requires
        existing@.len() == planned@.len(),
    ensures
        !dest_exists ==> r matches Err(ScaffoldError::NotFound),
        r is Ok <==> (dest_exists && forall|i: int|
            0 <= i < existing@.len() ==> !(#[trigger] existing@[i])),
        (dest_exists && exists|i: int| 0 <= i < existing@.len() && #[trigger] existing@[i])
            ==> (r matches Err(ScaffoldError::Conflicts(list)) && list.deep_view()
            == spec_conflicts(planned.deep_view(), existing@)),
{
    if !dest_exists {
        return Err(ScaffoldError::NotFound);
    }
    let ghost ps = planned.deep_view();
    let ghost ex = existing@;
    let mut conflicts: Vec<String> = Vec::new();
    let mut any = false;
    let mut i: usize = 0;
    while i < existing.len()
        invariant
            i <= existing@.len(),
            existing@.len() == planned@.len(),
            ps == planned.deep_view(),
            ex == existing@,
            conflicts.deep_view() == spec_conflicts(ps.take(i as int), ex.take(i as int)),
            any == exists|j: int| 0 <= j < i && #[trigger] ex[j],
        decreases existing@.len() - i,
    {
        let ghost prev = conflicts.deep_view();
        if existing[i] {
            proof {
                assert(ps[i as int] == planned@[i as int]@);
            }
            let joined = crate::substitute::join_components(&planned[i].dest_path);
            let ghost jv = joined@;
            conflicts.push(joined);
            any = true;
            proof {
                assert(conflicts.deep_view() =~= prev.push(jv));
            }
        }
        i += 1;
        proof {
            assert(ps.take(i as int).drop_last() =~= ps.take(i - 1));
            assert(ex.take(i as int).drop_last() =~= ex.take(i - 1));
            assert(ps.take(i as int).last() == ps[i - 1]);
            assert(ex.take(i as int).last() == ex[i - 1]);
            assert(conflicts.deep_view() =~= spec_conflicts(ps.take(i as int), ex.take(i as int)));
        }
    }
    proof {
        assert(ps.take(ps.len() as int) =~= ps);
        assert(ex.take(ex.len() as int) =~= ex);
    }
    if any {
        return Err(ScaffoldError::Conflicts(conflicts));
    }
    Ok(())
}

} // verus!
