//! The geometric value types a parsed model holds: points and faces.
use crate::lexing::split_on;
use crate::lexing::split_parts;
use crate::numeric::index_of;
use crate::numeric::is_digit;
use crate::numeric::DOT;
use crate::numeric::is_float_literal;
use crate::numeric::is_float_token;
use crate::numeric::parse_index;
use crate::numeric::strip_sign;
use vstd::prelude::*;

verus! {

pub const SLASH: u8 = 0x2F;

/// A vertex position, texture coordinate or normal. Each component holds a
/// validated floating-point literal exactly as the file wrote it; turning the
/// text into machine floating point is the consumer's step.
#[derive(Debug)]
pub struct Point3 {
    pub x: Vec<u8>,
    pub y: Vec<u8>,
    pub z: Vec<u8>,
}

/// The mathematical value of a `Point3`: its three component literals.
pub struct Point3View {
    pub x: Seq<u8>,
    pub y: Seq<u8>,
    pub z: Seq<u8>,
}

impl View for Point3 {
    type V = Point3View;

    open spec fn view(&self) -> Point3View {
        Point3View { x: self.x@, y: self.y@, z: self.z@ }
    }
}

/// Every component of a parsed point is a floating-point literal.
pub open spec fn wf_point(p: Point3View) -> bool {
    is_float_literal(p.x) && is_float_literal(p.y) && is_float_literal(p.z)
}

/// The literal `0.0`, the z component a two-field texture coordinate gets.
pub open spec fn zero_literal() -> Seq<u8> {
    seq![0x30u8, 0x2Eu8, 0x30u8]
}

pub proof fn lemma_zero_literal_is_float()
    ensures
        is_float_literal(zero_literal()),
{
    let t = zero_literal();
    assert(strip_sign(t) == t);
    assert(t.len() == 3);
    assert(is_digit(t[0]) && t[1] == DOT && is_digit(t[2]));
}

/// The point a three-coordinate directive denotes, or `None` where a field is
/// not a floating-point literal.
pub open spec fn point3_of(x: Seq<u8>, y: Seq<u8>, z: Seq<u8>) -> Option<Point3View> {
    if is_float_literal(x) && is_float_literal(y) && is_float_literal(z) {
        Some(Point3View { x, y, z })
    } else {
        None
    }
}

/// The point a two-coordinate texture directive denotes: z is the zero
/// literal.
pub open spec fn point2_of(x: Seq<u8>, y: Seq<u8>) -> Option<Point3View> {
    point3_of(x, y, zero_literal())
}

impl Point3 {
    /// Builds a point from three coordinate fields; `None` exactly where a
    /// field is not a floating-point literal.
    pub fn parse3(x: &[u8], y: &[u8], z: &[u8]) -> (r: Option<Point3>)
        ensures
            r matches Some(p) ==> point3_of(x@, y@, z@) == Some(p@) && wf_point(p@),
            r is None <==> point3_of(x@, y@, z@) is None,
    {
        if is_float_token(x) && is_float_token(y) && is_float_token(z) {
            Some(
                Point3 {
                    x: vstd::slice::slice_to_vec(x),
                    y: vstd::slice::slice_to_vec(y),
                    z: vstd::slice::slice_to_vec(z),
                },
            )
        } else {
            None
        }
    }

    /// Builds a point from two coordinate fields, the z component defaulting
    /// to the zero literal; `None` exactly where a field is not a
    /// floating-point literal.
    pub fn parse2(x: &[u8], y: &[u8]) -> (r: Option<Point3>)
        ensures
            r matches Some(p) ==> point2_of(x@, y@) == Some(p@) && wf_point(p@) && p@.z
                == zero_literal(),
            r is None <==> point2_of(x@, y@) is None,
    {
        proof {
            lemma_zero_literal_is_float();
        }
        if is_float_token(x) && is_float_token(y) {
            let mut z: Vec<u8> = Vec::new();
            z.push(0x30);
            z.push(0x2E);
            z.push(0x30);
            assert(z@ =~= zero_literal());
            Some(Point3 { x: vstd::slice::slice_to_vec(x), y: vstd::slice::slice_to_vec(y), z })
        } else {
            None
        }
    }
}

/// A triangular face: `v` holds the vertex-position indices of its three
/// corners, `t` their texture-coordinate indices and `n` their normal
/// indices, stored exactly as the file gives them, with no base adjustment.
#[derive(Clone, Copy, PartialEq, Eq, Debug)]
pub struct Face {
    pub v: (u16, u16, u16),
    pub t: (u16, u16, u16),
    pub n: (u16, u16, u16),
}

/// The index triple an `a/b/c` field denotes: exactly three slash-separated
/// fields, each a face index; `None` otherwise.
pub open spec fn triple_of(s: Seq<u8>) -> Option<(u16, u16, u16)> {
    let parts = split_on(s, SLASH);
    if parts.len() == 3 {
        match (index_of(parts[0]), index_of(parts[1]), index_of(parts[2])) {
            (Some(a), Some(b), Some(c)) => Some((a, b, c)),
            _ => None,
        }
    } else {
        None
    }
}

/// The face three corner fields `a/b/c` denote: `v` collects the three
/// position indices, `t` the three texture indices, `n` the three normal
/// indices; `None` where a corner is malformed.
pub open spec fn face_of(c1: Seq<u8>, c2: Seq<u8>, c3: Seq<u8>) -> Option<Face> {
    match (triple_of(c1), triple_of(c2), triple_of(c3)) {
        (Some(a), Some(b), Some(c)) => Some(
            (Face { v: (a.0, b.0, c.0), t: (a.1, b.1, c.1), n: (a.2, b.2, c.2) }),
        ),
        _ => None,
    }
}

/// Parses one `a/b/c` field, exactly as `triple_of` states.
fn parse_triple(s: &[u8]) -> (r: Option<(u16, u16, u16)>)
    ensures
        r == triple_of(s@),
{
    let parts = split_parts(s, SLASH);
    proof {
        assert(forall|i: int|
            0 <= i < parts@.len() ==> #[trigger] parts.deep_view()[i] =~= parts@[i]@);
    }
    if parts.len() != 3 {
        return None;
    }
    let a = parse_index(parts[0].as_slice());
    let b = parse_index(parts[1].as_slice());
    let c = parse_index(parts[2].as_slice());
    match (a, b, c) {
        (Some(a), Some(b), Some(c)) => Some((a, b, c)),
        _ => None,
    }
}

impl Face {
    /// Parses the three `a/b/c` corner fields of a face directive, exactly as
    /// `face_of` states: the stored triples equal the parsed integers,
    /// component for component.
    pub fn parse(c1: &[u8], c2: &[u8], c3: &[u8]) -> (r: Option<Face>)
        ensures
            r == face_of(c1@, c2@, c3@),
    {
        let p1 = parse_triple(c1);
        let p2 = parse_triple(c2);
        let p3 = parse_triple(c3);
        match (p1, p2, p3) {
            (Some(a), Some(b), Some(c)) => Some(
                Face { v: (a.0, b.0, c.0), t: (a.1, b.1, c.1), n: (a.2, b.2, c.2) },
            ),
            _ => None,
        }
    }
}

} // verus!
