//! Face normals and the ASCII STL text of a mesh.
use vstd::prelude::*;
use crate::mesh::{Triangle, Vertex};

verus! {

/// The face normal of a triangle, unnormalised, in thousandths of a unit.
#[derive(Clone, Copy, PartialEq, Eq, Structural, Debug)]
pub struct Normal {
    pub x: i128,
    pub y: i128,
    pub z: i128,
}

/// The cross product `(b - a) x (c - a)`, each component in thousandths:
/// vertex heights are already in thousandths, and the component built from
/// the planar coordinates alone is scaled by 1000.
pub open spec fn normal_spec(t: Triangle) -> Normal {
    let ux = t.b.x - t.a.x;
    let uy = t.b.y - t.a.y;
    let uz = t.b.z - t.a.z;
    let vx = t.c.x - t.a.x;
    let vy = t.c.y - t.a.y;
    let vz = t.c.z - t.a.z;
    Normal {
        x: (uy * vz - uz * vy) as i128,
        y: (uz * vx - ux * vz) as i128,
        z: (1000 * (ux * vy - uy * vx)) as i128,
    }
}

/// `p * q` for a planar difference `p` and a difference `q` of heights or
/// of planar coordinates.
fn product(p: i128, q: i128) -> (v: i128)
    requires
        -0x1_0000_0000 <= p <= 0x1_0000_0000,
        -0x1_0000_0000_0000_0000 <= q <= 0x1_0000_0000_0000_0000,
    ensures
        v == p * q,
        -0x1_0000_0000_0000_0000_0000_0000 <= v <= 0x1_0000_0000_0000_0000_0000_0000,
{
    proof {
        assert(-0x1_0000_0000_0000_0000_0000_0000 <= p * q <= 0x1_0000_0000_0000_0000_0000_0000)
            by (nonlinear_arith)
            requires
                -0x1_0000_0000 <= p <= 0x1_0000_0000,
                -0x1_0000_0000_0000_0000 <= q <= 0x1_0000_0000_0000_0000,
        ;
    }
    p * q
}

/// The face normal of `t`, keeping the winding order of its vertices. Each
/// product of the cross product pairs a planar difference with another
/// difference, so every component fits in `i128` for any vertex.
pub fn normal(t: &Triangle) -> (n: Normal)
    ensures
        n == normal_spec(*t),
        n.x > i128::MIN && n.y > i128::MIN && n.z > i128::MIN,
{
    let ux: i128 = t.b.x as i128 - t.a.x as i128;
    let uy: i128 = t.b.y as i128 - t.a.y as i128;
    let uz: i128 = t.b.z as i128 - t.a.z as i128;
    let vx: i128 = t.c.x as i128 - t.a.x as i128;
    let vy: i128 = t.c.y as i128 - t.a.y as i128;
    let vz: i128 = t.c.z as i128 - t.a.z as i128;
    let nx: i128 = product(uy, vz) - product(vy, uz);
    let ny: i128 = product(vx, uz) - product(ux, vz);
    let nz: i128 = product(ux, vy) - product(uy, vx);
    proof {
        assert(uy * vz - uz * vy == uy * vz - vy * uz) by (nonlinear_arith);
        assert(uz * vx - ux * vz == vx * uz - ux * vz) by (nonlinear_arith);
    }
    Normal { x: nx, y: ny, z: 1000 * nz }
}

/// The decimal text of the digit `d`.
pub open spec fn digit_text(d: int) -> Seq<char> {
    if d == 0 {
        "0"@
    } else if d == 1 {
        "1"@
    } else if d == 2 {
        "2"@
    } else if d == 3 {
        "3"@
    } else if d == 4 {
        "4"@
    } else if d == 5 {
        "5"@
    } else if d == 6 {
        "6"@
    } else if d == 7 {
        "7"@
    } else if d == 8 {
        "8"@
    } else {
        "9"@
    }
}

/// The decimal text of `n`, without leading zeros.
pub open spec fn digits_text(n: nat) -> Seq<char>
    decreases n,
{
    if n < 10 {
        digit_text(n as int)
    } else {
        digits_text(n / 10) + digit_text((n % 10) as int)
    }
}

/// The fractional part `f / 1000` as text: empty for zero, otherwise a point
/// and up to three digits, with trailing zeros dropped.
pub open spec fn fraction_text(f: int) -> Seq<char> {
    if f == 0 {
        Seq::empty()
    } else if f % 100 == 0 {
        "."@ + digit_text(f / 100)
    } else if f % 10 == 0 {
        "."@ + digit_text(f / 100) + digit_text((f / 10) % 10)
    } else {
        "."@ + digit_text(f / 100) + digit_text((f / 10) % 10) + digit_text(f % 10)
    }
}

/// The decimal text of `v / 1000`: `8000` reads `8`, `2500` reads `2.5`,
/// `-1` reads `-0.001`.
pub open spec fn milli_text(v: int) -> Seq<char> {
    let a = if v < 0 { -v } else { v };
    (if v < 0 { "-"@ } else { Seq::empty() }) + digits_text((a / 1000) as nat) + fraction_text(a % 1000)
}

/// The text of a vertex: its planar coordinates as integers, its height in
/// units.
pub open spec fn vertex_text(v: Vertex) -> Seq<char> {
    digits_text(v.x as nat) + " "@ + digits_text(v.y as nat) + " "@ + milli_text(v.z as int)
}

/// The three components of a normal, separated by spaces.
pub open spec fn normal_values(n: Normal) -> Seq<char> {
    milli_text(n.x as int) + " "@ + milli_text(n.y as int) + " "@ + milli_text(n.z as int)
}

/// The line of one vertex of a facet block.
pub open spec fn vertex_line(v: Vertex) -> Seq<char> {
    "      vertex "@ + vertex_text(v) + "\n"@
}

/// What a facet block holds between `facet normal` and `endfacet`: the
/// normal, then the three vertices in winding order.
pub open spec fn facet_body(t: Triangle) -> Seq<char> {
    normal_values(normal_spec(t)) + "\n"@ + "    outer loop\n"@ + vertex_lines(t) + "    endloop\n"@
}

/// The three vertex lines of a facet block, in winding order.
pub open spec fn vertex_lines(t: Triangle) -> Seq<char> {
    vertex_line(t.a) + vertex_line(t.b) + vertex_line(t.c)
}

/// One facet block.
pub open spec fn facet_text(t: Triangle) -> Seq<char> {
    "  facet normal "@ + facet_body(t) + "  endfacet\n"@
}

/// The facet blocks of a mesh, one per triangle, in order.
pub open spec fn facets(ts: Seq<Triangle>) -> Seq<Seq<char>> {
    ts.map_values(|t: Triangle| facet_text(t))
}

/// The ASCII STL text of a mesh.
pub open spec fn stl_spec(ts: Seq<Triangle>) -> Seq<char> {
    "solid surface\n"@ + facets(ts).flatten() + "endsolid surface\n"@
}

fn push_digit(out: &mut String, d: u128)
    requires
        d < 10,
    ensures
        final(out)@ == old(out)@ + digit_text(d as int),
{
    let s: &str = if d == 0 {
        "0"
    } else if d == 1 {
        "1"
    } else if d == 2 {
        "2"
    } else if d == 3 {
        "3"
    } else if d == 4 {
        "4"
    } else if d == 5 {
        "5"
    } else if d == 6 {
        "6"
    } else if d == 7 {
        "7"
    } else if d == 8 {
        "8"
    } else {
        "9"
    };
    out.append(s);
}

fn push_digits(out: &mut String, n: u128)
    ensures
        final(out)@ == old(out)@ + digits_text(n as nat),
    decreases n,
{
    if n < 10 {
        push_digit(out, n);
    } else {
        push_digits(out, n / 10);
        push_digit(out, n % 10);
        assert(final(out)@ =~= old(out)@ + digits_text(n as nat));
    }
}

fn push_milli(out: &mut String, v: i128)
    requires
        v > i128::MIN,
    ensures
        final(out)@ == old(out)@ + milli_text(v as int),
{
    let ghost start = out@;
    if v < 0 {
        out.append("-");
    }
    let a: u128 = if v < 0 { (-v) as u128 } else { v as u128 };
    push_digits(out, a / 1000);
    let f: u128 = a % 1000;
    let ghost whole = out@;
    if f != 0 {
        out.append(".");
        push_digit(out, f / 100);
        if f % 100 != 0 {
            push_digit(out, (f / 10) % 10);
            if f % 10 != 0 {
                push_digit(out, f % 10);
            }
        }
    }
    assert(out@ == whole + fraction_text(f as int));
    assert(out@ =~= start + milli_text(v as int));
}

fn push_vertex(out: &mut String, v: &Vertex)
    ensures
        final(out)@ == old(out)@ + vertex_text(*v),
{
    let ghost start = out@;
    push_digits(out, v.x as u128);
    out.append(" ");
    push_digits(out, v.y as u128);
    out.append(" ");
    push_milli(out, v.z as i128);
    assert(out@ =~= start + vertex_text(*v));
}

fn push_normal_values(out: &mut String, n: &Normal)
    requires
        n.x > i128::MIN && n.y > i128::MIN && n.z > i128::MIN,
    ensures
        final(out)@ == old(out)@ + normal_values(*n),
{
    let ghost start = out@;
    push_milli(out, n.x);
    out.append(" ");
    push_milli(out, n.y);
    out.append(" ");
    push_milli(out, n.z);
    assert(out@ =~= start + normal_values(*n));
}

fn push_vertex_line(out: &mut String, v: &Vertex)
    ensures
        final(out)@ == old(out)@ + vertex_line(*v),
{
    let ghost start = out@;
    out.append("      vertex ");
    push_vertex(out, v);
    out.append("\n");
    assert(out@ =~= start + vertex_line(*v));
}

fn push_facet_body(out: &mut String, t: &Triangle)
    ensures
        final(out)@ == old(out)@ + facet_body(*t),
{
    let ghost start = out@;
    let n = normal(t);
    push_normal_values(out, &n);
    out.append("\n");
    out.append("    outer loop\n");
    push_vertex_lines(out, t);
    out.append("    endloop\n");
    assert(out@ =~= start + facet_body(*t));
}

fn push_vertex_lines(out: &mut String, t: &Triangle)
    ensures
        final(out)@ == old(out)@ + vertex_lines(*t),
{
    let ghost start = out@;
    push_vertex_line(out, &t.a);
    push_vertex_line(out, &t.b);
    push_vertex_line(out, &t.c);
    assert(out@ =~= start + vertex_lines(*t));
}

fn push_facet(out: &mut String, t: &Triangle)
    ensures
        final(out)@ == old(out)@ + facet_text(*t),
{
    let ghost start = out@;
    out.append("  facet normal ");
    push_facet_body(out, t);
    out.append("  endfacet\n");
    assert(out@ =~= start + facet_text(*t));
}

/// Writes a mesh as ASCII STL text: `solid surface`, one facet block per
/// triangle in order, `endsolid surface`.
pub fn stl_text(ts: &Vec<Triangle>) -> (s: String)
    ensures
        s@ == stl_spec(ts@),
{
    let mut out: String = String::from_str("solid surface\n");
    let mut i: usize = 0;
    while i < ts.len()
        invariant
            i <= ts@.len(),
            out@ == "solid surface\n"@ + facets(ts@.subrange(0, i as int)).flatten(),
        decreases ts@.len() - i,
    {
        let ghost before = out@;
        push_facet(&mut out, &ts[i]);
        proof {
            let done = facets(ts@.subrange(0, i as int));
            done.lemma_flatten_push(facet_text(ts@[i as int]));
            assert(facets(ts@.subrange(0, i + 1)) =~= done.push(facet_text(ts@[i as int])));
            assert(out@ =~= "solid surface\n"@ + facets(ts@.subrange(0, i + 1)).flatten());
        }
        i = i + 1;
    }
    out.append("endsolid surface\n");
    assert(ts@.subrange(0, ts@.len() as int) =~= ts@);
    out
}

/// The text begins with `solid surface` and ends with `endsolid surface`, and
/// between them stands exactly one facet block per triangle, in order, each
/// opening with `facet normal` and closing with `endfacet`.
pub proof fn lemma_stl_framing(ts: Seq<Triangle>)
    ensures
        stl_spec(ts) == "solid surface\n"@ + facets(ts).flatten() + "endsolid surface\n"@,
        stl_spec(ts).subrange(0, "solid surface\n"@.len() as int) == "solid surface\n"@,
        stl_spec(ts).subrange(
            stl_spec(ts).len() - "endsolid surface\n"@.len(),
            stl_spec(ts).len() as int,
        ) == "endsolid surface\n"@,
        facets(ts).len() == ts.len(),
        forall|i: int|
            #![trigger facets(ts)[i]]
            0 <= i < ts.len() ==> {
                let block = facets(ts)[i];
                &&& block == facet_text(ts[i])
                &&& block.subrange(0, "  facet normal "@.len() as int) == "  facet normal "@
                &&& block.subrange(block.len() - "  endfacet\n"@.len(), block.len() as int)
                    == "  endfacet\n"@
            },
{
    lemma_framed("solid surface\n"@, facets(ts).flatten(), "endsolid surface\n"@);
    assert forall|i: int|
        #![trigger facets(ts)[i]]
        0 <= i < ts.len() implies {
            let block = facets(ts)[i];
            &&& block == facet_text(ts[i])
            &&& block.subrange(0, "  facet normal "@.len() as int) == "  facet normal "@
            &&& block.subrange(block.len() - "  endfacet\n"@.len(), block.len() as int)
                == "  endfacet\n"@
        } by {
        lemma_framed("  facet normal "@, facet_body(ts[i]), "  endfacet\n"@);
    }
}

/// A concatenation `a + b + c` begins with `a` and ends with `c`.
proof fn lemma_framed(a: Seq<char>, b: Seq<char>, c: Seq<char>)
    ensures
        (a + b + c).subrange(0, a.len() as int) == a,
        (a + b + c).subrange((a + b + c).len() - c.len(), (a + b + c).len() as int) == c,
{
    assert((a + b + c).subrange(0, a.len() as int) =~= a);
    assert((a + b + c).subrange((a + b + c).len() - c.len(), (a + b + c).len() as int) =~= c);
}

} // verus!
