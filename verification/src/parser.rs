//! The OBJ parser: per-line dispatch and the model it populates.
use crate::geom::face_of;
use crate::geom::point2_of;
use crate::geom::point3_of;
use crate::geom::wf_point;
use crate::geom::zero_literal;
use crate::geom::Face;
use crate::geom::Point3;
use crate::geom::Point3View;
use crate::lexing::tokenize;
use crate::lexing::tokens_of;
use vstd::prelude::*;

verus! {

pub const HASH: u8 = 0x23;
pub const LETTER_V: u8 = 0x76;
pub const LETTER_T: u8 = 0x74;
pub const LETTER_N: u8 = 0x6E;
pub const LETTER_F: u8 = 0x66;

pub open spec fn kw_hash() -> Seq<u8> {
    seq![HASH]
}

pub open spec fn kw_v() -> Seq<u8> {
    seq![LETTER_V]
}

pub open spec fn kw_vt() -> Seq<u8> {
    seq![LETTER_V, LETTER_T]
}

pub open spec fn kw_vn() -> Seq<u8> {
    seq![LETTER_V, LETTER_N]
}

pub open spec fn kw_f() -> Seq<u8> {
    seq![LETTER_F]
}

/// One dispatched line, decided before any collection changes.
pub enum Directive {
    VertexPos(Point3),
    TexCoord(Point3),
    Normal(Point3),
    FaceDef(Face),
    Skip,
}

/// The mathematical value of a `Directive`.
pub enum DirectiveView {
    VertexPos(Point3View),
    TexCoord(Point3View),
    Normal(Point3View),
    FaceDef(Face),
    Skip,
}

impl View for Directive {
    type V = DirectiveView;

    open spec fn view(&self) -> DirectiveView {
        match self {
            Directive::VertexPos(p) => DirectiveView::VertexPos(p@),
            Directive::TexCoord(p) => DirectiveView::TexCoord(p@),
            Directive::Normal(p) => DirectiveView::Normal(p@),
            Directive::FaceDef(f) => DirectiveView::FaceDef(*f),
            Directive::Skip => DirectiveView::Skip,
        }
    }
}

/// The directive a line denotes: `Skip` for blank and comment lines, `None`
/// for a malformed or unrecognized line.
pub open spec fn directive_of(line: Seq<u8>) -> Option<DirectiveView> {
    let toks = tokens_of(line);
    if toks.len() == 0 {
        Some(DirectiveView::Skip)
    } else if toks[0] == kw_hash() {
        Some(DirectiveView::Skip)
    } else if toks[0] == kw_vn() && toks.len() == 4 {
        match point3_of(toks[1], toks[2], toks[3]) {
            Some(p) => Some(DirectiveView::Normal(p)),
            None => None,
        }
    } else if toks[0] == kw_vt() && toks.len() == 4 {
        match point3_of(toks[1], toks[2], toks[3]) {
            Some(p) => Some(DirectiveView::TexCoord(p)),
            None => None,
        }
    } else if toks[0] == kw_vt() && toks.len() == 3 {
        match point2_of(toks[1], toks[2]) {
            Some(p) => Some(DirectiveView::TexCoord(p)),
            None => None,
        }
    } else if toks[0] == kw_v() && toks.len() == 4 {
        match point3_of(toks[1], toks[2], toks[3]) {
            Some(p) => Some(DirectiveView::VertexPos(p)),
            None => None,
        }
    } else if toks[0] == kw_f() && toks.len() == 4 {
        match face_of(toks[1], toks[2], toks[3]) {
            Some(f) => Some(DirectiveView::FaceDef(f)),
            None => None,
        }
    } else {
        None
    }
}

fn tok_is1(k: &[u8], b: u8) -> (r: bool)
    ensures
        r == (k@ == seq![b]),
{
    if k.len() == 1 && k[0] == b {
        assert(k@ =~= seq![b]);
        true
    } else {
        proof {
            if k@.len() == 1 {
                assert(k@[0] != seq![b][0]);
            }
        }
        false
    }
}

fn tok_is2(k: &[u8], b0: u8, b1: u8) -> (r: bool)
    ensures
        r == (k@ == seq![b0, b1]),
{
    if k.len() == 2 && k[0] == b0 && k[1] == b1 {
        assert(k@ =~= seq![b0, b1]);
        true
    } else {
        proof {
            if k@.len() == 2 {
                assert(k@[0] == seq![b0, b1][0] ==> k@[1] != seq![b0, b1][1]);
            }
        }
        false
    }
}

/// Dispatches one line to its directive, exactly as `directive_of` states;
/// `None` reports a malformed line.
pub fn classify(line: &[u8]) -> (r: Option<Directive>)
    ensures
        r matches Some(d) ==> directive_of(line@) == Some(d@),
        r is None <==> directive_of(line@) is None,
{
    let toks = tokenize(line);
    proof {
        assert(forall|i: int|
            0 <= i < toks@.len() ==> #[trigger] toks.deep_view()[i] =~= toks@[i]@);
    }
    if toks.len() == 0 {
        return Some(Directive::Skip);
    }
    let arity = toks.len();
    let head = toks[0].as_slice();
    if tok_is1(head, HASH) {
        Some(Directive::Skip)
    } else if tok_is2(head, LETTER_V, LETTER_N) && arity == 4 {
        match Point3::parse3(toks[1].as_slice(), toks[2].as_slice(), toks[3].as_slice()) {
            Some(p) => Some(Directive::Normal(p)),
            None => None,
        }
    } else if tok_is2(head, LETTER_V, LETTER_T) && arity == 4 {
        match Point3::parse3(toks[1].as_slice(), toks[2].as_slice(), toks[3].as_slice()) {
            Some(p) => Some(Directive::TexCoord(p)),
            None => None,
        }
    } else if tok_is2(head, LETTER_V, LETTER_T) && arity == 3 {
        match Point3::parse2(toks[1].as_slice(), toks[2].as_slice()) {
            Some(p) => Some(Directive::TexCoord(p)),
            None => None,
        }
    } else if tok_is1(head, LETTER_V) && arity == 4 {
        match Point3::parse3(toks[1].as_slice(), toks[2].as_slice(), toks[3].as_slice()) {
            Some(p) => Some(Directive::VertexPos(p)),
            None => None,
        }
    } else if tok_is1(head, LETTER_F) && arity == 4 {
        match Face::parse(toks[1].as_slice(), toks[2].as_slice(), toks[3].as_slice()) {
            Some(f) => Some(Directive::FaceDef(f)),
            None => None,
        }
    } else {
        None
    }
}

/// The parsed model: vertex positions, texture coordinates, normals and
/// faces, each in file order. Face indices stay as the file wrote them; no
/// base adjustment is applied.
#[derive(Debug)]
pub struct Obj {
    pub vsv: Vec<Point3>,
    pub vst: Vec<Point3>,
    pub vsn: Vec<Point3>,
    pub fs: Vec<Face>,
}

/// The mathematical value of a model: its four sequences.
pub struct ObjView {
    pub vsv: Seq<Point3View>,
    pub vst: Seq<Point3View>,
    pub vsn: Seq<Point3View>,
    pub fs: Seq<Face>,
}

pub open spec fn points_view(s: Seq<Point3>) -> Seq<Point3View> {
    Seq::new(s.len(), |i: int| s[i]@)
}

impl View for Obj {
    type V = ObjView;

    open spec fn view(&self) -> ObjView {
        ObjView {
            vsv: points_view(self.vsv@),
            vst: points_view(self.vst@),
            vsn: points_view(self.vsn@),
            fs: self.fs@,
        }
    }
}

pub open spec fn empty_model() -> ObjView {
    ObjView {
        vsv: Seq::empty(),
        vst: Seq::empty(),
        vsn: Seq::empty(),
        fs: Seq::empty(),
    }
}

/// How one directive grows a model: a skip changes nothing, every other
/// directive appends its value to exactly one collection.
pub open spec fn apply_directive(m: ObjView, d: DirectiveView) -> ObjView {
    match d {
        DirectiveView::VertexPos(p) => ObjView { vsv: m.vsv.push(p), ..m },
        DirectiveView::TexCoord(p) => ObjView { vst: m.vst.push(p), ..m },
        DirectiveView::Normal(p) => ObjView { vsn: m.vsn.push(p), ..m },
        DirectiveView::FaceDef(f) => ObjView { fs: m.fs.push(f), ..m },
        DirectiveView::Skip => m,
    }
}

/// The model a line sequence denotes, or the 0-based index of its first
/// malformed line.
pub open spec fn parse_result_of(lines: Seq<Seq<u8>>) -> Result<ObjView, int>
    decreases lines.len(),
{
    if lines.len() == 0 {
        Ok(empty_model())
    } else {
        match parse_result_of(lines.drop_last()) {
            Err(i) => Err(i),
            Ok(m) => match directive_of(lines.last()) {
                Some(d) => Ok(apply_directive(m, d)),
                None => Err(lines.len() - 1),
            },
        }
    }
}

/// A malformed line: its 1-based number and its raw content. Any such line
/// aborts the parse; no partial model is returned.
#[derive(Debug, PartialEq, Eq, Clone)]
pub struct ParseError {
    pub line: usize,
    pub content: Vec<u8>,
}

proof fn lemma_error_propagates(lines: Seq<Seq<u8>>, i: int, j: int)
    requires
        0 <= i < j <= lines.len(),
        parse_result_of(lines.take(i)) is Ok,
        directive_of(lines[i]) is None,
    ensures
        parse_result_of(lines.take(j)) == Err::<ObjView, int>(i),
    decreases j,
{
    if j == i + 1 {
        assert(lines.take(j).drop_last() =~= lines.take(i));
        assert(lines.take(j).last() == lines[i]);
        assert(lines.take(j).len() - 1 == i);
    } else {
        lemma_error_propagates(lines, i, j - 1);
        assert(lines.take(j).drop_last() =~= lines.take(j - 1));
    }
}

impl Obj {
    /// Parses the lines of an OBJ file into a model. The whole input is read:
    /// the result is the populated model, or the first malformed line as a
    /// `ParseError`, and never a partial model.
    pub fn parse(lines: &Vec<Vec<u8>>) -> (r: Result<Obj, ParseError>)
        ensures
            r matches Ok(o) ==> parse_result_of(lines.deep_view()) == Ok::<ObjView, int>(o@)
                && wf_model(o@),
            r matches Err(e) ==> {
                &&& 1 <= e.line <= lines@.len()
                &&& parse_result_of(lines.deep_view()) == Err::<ObjView, int>(e.line - 1)
                &&& e.content@ == lines@[e.line - 1]@
            },
    {
        let mut vsv: Vec<Point3> = Vec::new();
        let mut vst: Vec<Point3> = Vec::new();
        let mut vsn: Vec<Point3> = Vec::new();
        let mut fs: Vec<Face> = Vec::new();
        let ghost all = lines.deep_view();
        proof {
            assert(forall|k: int| 0 <= k < lines@.len() ==> #[trigger] all[k] =~= lines@[k]@);
            assert(points_view(vsv@) =~= Seq::<Point3View>::empty());
            assert(all.take(0) =~= Seq::<Seq<u8>>::empty());
        }
        let mut i: usize = 0;
        while i < lines.len()
            invariant
                0 <= i <= lines@.len(),
                all == lines.deep_view(),
                forall|k: int| 0 <= k < lines@.len() ==> #[trigger] all[k] == lines@[k]@,
                parse_result_of(all.take(i as int)) == Ok::<ObjView, int>(
                    (ObjView {
                        vsv: points_view(vsv@),
                        vst: points_view(vst@),
                        vsn: points_view(vsn@),
                        fs: fs@,
                    }),
                ),
            decreases lines@.len() - i,
        {
            let ghost before = ObjView {
                vsv: points_view(vsv@),
                vst: points_view(vst@),
                vsn: points_view(vsn@),
                fs: fs@,
            };
            let d = classify(lines[i].as_slice());
            proof {
                assert(all.take(i + 1).drop_last() =~= all.take(i as int));
                assert(all.take(i + 1).last() == all[i as int]);
            }
            match d {
                None => {
                    proof {
                        lemma_error_propagates(all, i as int, all.len() as int);
                        assert(all.take(all.len() as int) =~= all);
                    }
                    return Err(ParseError { line: i + 1, content: lines[i].clone() });
                },
                Some(Directive::VertexPos(p)) => {
                    let ghost pv = p@;
                    vsv.push(p);
                    proof {
                        assert(points_view(vsv@) =~= before.vsv.push(pv));
                    }
                },
                Some(Directive::TexCoord(p)) => {
                    let ghost pv = p@;
                    vst.push(p);
                    proof {
                        assert(points_view(vst@) =~= before.vst.push(pv));
                    }
                },
                Some(Directive::Normal(p)) => {
                    let ghost pv = p@;
                    vsn.push(p);
                    proof {
                        assert(points_view(vsn@) =~= before.vsn.push(pv));
                    }
                },
                Some(Directive::FaceDef(f)) => {
                    fs.push(f);
                },
                Some(Directive::Skip) => {},
            }
            i = i + 1;
        }
        proof {
            assert(all.take(i as int) =~= all);
            lemma_parsed_model_well_formed(
                all,
                (ObjView {
                    vsv: points_view(vsv@),
                    vst: points_view(vst@),
                    vsn: points_view(vsn@),
                    fs: fs@,
                }),
            );
        }
        Ok(Obj { vsv, vst, vsn, fs })
    }
}

/// A valid vertex-position line, met after a well-parsed prefix, appends its
/// point at the end of the position collection — the collection grows by
/// exactly one, in file order — and leaves the other collections unchanged.
pub proof fn lemma_vertex_line_appends_one(lines: Seq<Seq<u8>>, i: int, m: ObjView, p: Point3View)
    requires
        0 <= i < lines.len(),
        parse_result_of(lines.take(i)) == Ok::<ObjView, int>(m),
        directive_of(lines[i]) == Some(DirectiveView::VertexPos(p)),
    ensures
        parse_result_of(lines.take(i + 1)) == Ok::<ObjView, int>(
            (ObjView { vsv: m.vsv.push(p), ..m }),
        ),
        parse_result_of(lines.take(i + 1))->Ok_0.vsv.len() == m.vsv.len() + 1,
{
    assert(lines.take(i + 1).drop_last() =~= lines.take(i));
    assert(lines.take(i + 1).last() == lines[i]);
}

/// A blank line has no tokens and a comment line's first token is `#`; both
/// dispatch to `Skip`.
pub proof fn lemma_blank_or_comment_is_skip(line: Seq<u8>)
    requires
        tokens_of(line).len() == 0 || tokens_of(line)[0] == kw_hash(),
    ensures
        directive_of(line) == Some(DirectiveView::Skip),
{
}

/// A skipped line — blank or comment — mutates no collection: the model after
/// it is the model before it.
pub proof fn lemma_skip_line_preserves_model(lines: Seq<Seq<u8>>, i: int, m: ObjView)
    requires
        0 <= i < lines.len(),
        parse_result_of(lines.take(i)) == Ok::<ObjView, int>(m),
        directive_of(lines[i]) == Some(DirectiveView::Skip),
    ensures
        parse_result_of(lines.take(i + 1)) == Ok::<ObjView, int>(m),
{
    assert(lines.take(i + 1).drop_last() =~= lines.take(i));
    assert(lines.take(i + 1).last() == lines[i]);
}

/// A two-field texture-coordinate line always stores the zero literal as its
/// z component.
pub proof fn lemma_two_field_texcoord_z_zero(line: Seq<u8>, p: Point3View)
    requires
        tokens_of(line).len() == 3,
        tokens_of(line)[0] == kw_vt(),
        directive_of(line) == Some(DirectiveView::TexCoord(p)),
    ensures
        p.z == zero_literal(),
{
}

/// Parsing succeeds exactly when every line carries a directive, and a
/// failure names the first line that does not: nothing before it is at
/// fault, and nothing after it is read.
pub proof fn lemma_parse_ok_iff_all_lines_valid(lines: Seq<Seq<u8>>)
    ensures
        parse_result_of(lines) is Ok <==> (forall|i: int|
            0 <= i < lines.len() ==> directive_of(#[trigger] lines[i]) is Some),
        parse_result_of(lines) matches Err(k) ==> 0 <= k < lines.len() && directive_of(lines[k])
            is None && (forall|j: int| 0 <= j < k ==> directive_of(#[trigger] lines[j]) is Some),
    decreases lines.len(),
{
    if lines.len() > 0 {
        let prefix = lines.drop_last();
        lemma_parse_ok_iff_all_lines_valid(prefix);
        if parse_result_of(prefix) is Ok {
            assert forall|j: int| 0 <= j < lines.len() - 1 implies directive_of(
                #[trigger] lines[j],
            ) is Some by {
                assert(lines[j] == prefix[j]);
            }
            if directive_of(lines.last()) is Some {
                assert(parse_result_of(lines) is Ok);
                assert forall|j: int| 0 <= j < lines.len() implies directive_of(
                    #[trigger] lines[j],
                ) is Some by {
                    if j == lines.len() - 1 {
                        assert(lines[j] == lines.last());
                    }
                }
            } else {
                assert(parse_result_of(lines) == Err::<ObjView, int>(lines.len() - 1));
                assert(directive_of(lines[lines.len() - 1]) is None);
            }
        } else {
            let k = parse_result_of(prefix)->Err_0;
            assert(parse_result_of(lines) == Err::<ObjView, int>(k));
            assert(directive_of(lines[k]) is None) by {
                assert(lines[k] == prefix[k]);
            }
            assert forall|j: int| 0 <= j < k implies directive_of(#[trigger] lines[j]) is Some by {
                assert(lines[j] == prefix[j]);
            }
        }
    }
}

/// Every coordinate the model holds is a floating-point literal.
pub open spec fn wf_model(m: ObjView) -> bool {
    &&& forall|i: int| 0 <= i < m.vsv.len() ==> wf_point(#[trigger] m.vsv[i])
    &&& forall|i: int| 0 <= i < m.vst.len() ==> wf_point(#[trigger] m.vst[i])
    &&& forall|i: int| 0 <= i < m.vsn.len() ==> wf_point(#[trigger] m.vsn[i])
}

/// A parsed model is well formed: parsing only ever stores a coordinate that
/// the floating-point grammar accepted.
pub proof fn lemma_parsed_model_well_formed(lines: Seq<Seq<u8>>, m: ObjView)
    requires
        parse_result_of(lines) == Ok::<ObjView, int>(m),
    ensures
        wf_model(m),
    decreases lines.len(),
{
    if lines.len() > 0 {
        let prefix = lines.drop_last();
        let m0 = parse_result_of(prefix)->Ok_0;
        lemma_parsed_model_well_formed(prefix, m0);
        let d = directive_of(lines.last())->Some_0;
        match d {
            DirectiveView::VertexPos(_) => {
                assert(forall|i: int| 0 <= i < m0.vsv.len() ==> m.vsv[i] == m0.vsv[i]);
            },
            DirectiveView::TexCoord(_) => {
                assert(forall|i: int| 0 <= i < m0.vst.len() ==> m.vst[i] == m0.vst[i]);
            },
            DirectiveView::Normal(_) => {
                assert(forall|i: int| 0 <= i < m0.vsn.len() ==> m.vsn[i] == m0.vsn[i]);
            },
            DirectiveView::FaceDef(_) => {
            },
            DirectiveView::Skip => {
            },
        }
    }
}

} // verus!
