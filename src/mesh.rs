//! Triangulation of a height field into a relief mesh.
use vstd::prelude::*;
use crate::height::HeightField;

verus! {

/// A mesh vertex: `x` and `y` in pixel units, `z` in thousandths of a unit.
#[derive(Clone, Copy, PartialEq, Eq, Structural, Debug)]
pub struct Vertex {
    pub x: u32,
    pub y: u32,
    pub z: u64,
}

/// Three vertices in winding order.
#[derive(Clone, Copy, PartialEq, Eq, Structural, Debug)]
pub struct Triangle {
    pub a: Vertex,
    pub b: Vertex,
    pub c: Vertex,
}

pub open spec fn vtx(x: int, y: int, z: int) -> Vertex {
    Vertex { x: x as u32, y: y as u32, z: z as u64 }
}

pub open spec fn tri(a: Vertex, b: Vertex, c: Vertex) -> Triangle {
    Triangle { a, b, c }
}

/// The triangles of the cell whose top-left corner is `(x, y)`, with corner
/// heights `h1` at `(x, y)`, `h2` at `(x + 1, y)`, `h3` at `(x, y + 1)` and
/// `h4` at `(x + 1, y + 1)`. A cell whose corners are all zero has none.
/// Otherwise the top is split along the diagonal `p2-p3` when
/// `h1 + h4 < h2 + h3`, and along `p1-p4` otherwise; without a base plate the
/// cell also gets its own two bottom triangles at zero height.
pub open spec fn cell_spec(f: &HeightField, x: int, y: int) -> Seq<Triangle> {
    let h1 = f.at(x, y);
    let h2 = f.at(x + 1, y);
    let h3 = f.at(x, y + 1);
    let h4 = f.at(x + 1, y + 1);
    let p1 = vtx(x, y, h1);
    let p2 = vtx(x + 1, y, h2);
    let p3 = vtx(x, y + 1, h3);
    let p4 = vtx(x + 1, y + 1, h4);
    if h1 == 0 && h2 == 0 && h3 == 0 && h4 == 0 {
        seq![]
    } else {
        let top = if h1 + h4 < h2 + h3 {
            seq![tri(p1, p2, p3), tri(p2, p4, p3)]
        } else {
            seq![tri(p1, p4, p3), tri(p1, p2, p4)]
        };
        if f.plate {
            top
        } else {
            top + seq![
                tri(vtx(x, y, 0), vtx(x + 1, y, 0), vtx(x, y + 1, 0)),
                tri(vtx(x + 1, y, 0), vtx(x + 1, y + 1, 0), vtx(x, y + 1, 0)),
            ]
        }
    }
}

/// The cells `0 .. n` of row `y`, in order.
pub open spec fn row_spec(f: &HeightField, y: int, n: nat) -> Seq<Triangle>
    decreases n,
{
    if n == 0 {
        seq![]
    } else {
        row_spec(f, y, (n - 1) as nat) + cell_spec(f, n - 1, y)
    }
}

/// The cells of rows `0 .. n`, row after row.
pub open spec fn top_spec(f: &HeightField, n: nat) -> Seq<Triangle>
    decreases n,
{
    if n == 0 {
        seq![]
    } else {
        top_spec(f, (n - 1) as nat) + row_spec(f, n - 1, (f.width - 1) as nat)
    }
}

/// The side wall of the border pair `(x, y)`, `(x, y + 1)` of column `x`: a
/// single triangle when either height is not zero, none otherwise. It joins
/// the top point of the first corner whose height is not zero (`(x, y)`
/// before `(x, y + 1)`), the other corner at zero height, and the point
/// below the top point.
pub open spec fn wall_y_spec(f: &HeightField, x: int, y: int) -> Seq<Triangle> {
    if f.at(x, y) != 0 {
        seq![tri(vtx(x, y, f.at(x, y)), vtx(x, y + 1, 0), vtx(x, y, 0))]
    } else if f.at(x, y + 1) != 0 {
        seq![tri(vtx(x, y + 1, f.at(x, y + 1)), vtx(x, y, 0), vtx(x, y + 1, 0))]
    } else {
        seq![]
    }
}

/// The walls of the first and the last column for rows `0 .. n`.
pub open spec fn walls_y_spec(f: &HeightField, n: nat) -> Seq<Triangle>
    decreases n,
{
    if n == 0 {
        seq![]
    } else {
        walls_y_spec(f, (n - 1) as nat) + wall_y_spec(f, 0, n - 1) + wall_y_spec(
            f,
            f.width - 1,
            n - 1,
        )
    }
}

/// The side wall of the border pair `(x, y)`, `(x + 1, y)` of row `y`: a
/// single triangle when either height is not zero, none otherwise. It joins
/// the top point of the first corner whose height is not zero (`(x, y)`
/// before `(x + 1, y)`), the other corner at zero height, and the point
/// below the top point.
pub open spec fn wall_x_spec(f: &HeightField, x: int, y: int) -> Seq<Triangle> {
    if f.at(x, y) != 0 {
        seq![tri(vtx(x, y, f.at(x, y)), vtx(x + 1, y, 0), vtx(x, y, 0))]
    } else if f.at(x + 1, y) != 0 {
        seq![tri(vtx(x + 1, y, f.at(x + 1, y)), vtx(x, y, 0), vtx(x + 1, y, 0))]
    } else {
        seq![]
    }
}

/// The walls of the first and the last row for columns `0 .. n`.
pub open spec fn walls_x_spec(f: &HeightField, n: nat) -> Seq<Triangle>
    decreases n,
{
    if n == 0 {
        seq![]
    } else {
        walls_x_spec(f, (n - 1) as nat) + wall_x_spec(f, n - 1, 0) + wall_x_spec(
            f,
            n - 1,
            f.height - 1,
        )
    }
}

/// The two triangles that span the whole grid at zero height.
pub open spec fn base_spec(f: &HeightField) -> Seq<Triangle> {
    let w = f.width - 1;
    let h = f.height - 1;
    seq![
        tri(vtx(0, 0, 0), vtx(0, h, 0), vtx(w, h, 0)),
        tri(vtx(0, 0, 0), vtx(w, h, 0), vtx(w, 0, 0)),
    ]
}

/// The whole mesh: the cells row after row, the walls along the columns, the
/// walls along the rows, and in plate mode the base.
pub open spec fn mesh_spec(f: &HeightField) -> Seq<Triangle> {
    let body = top_spec(f, (f.height - 1) as nat) + walls_y_spec(f, (f.height - 1) as nat)
        + walls_x_spec(f, (f.width - 1) as nat);
    if f.plate {
        body + base_spec(f)
    } else {
        body
    }
}

fn vertex(x: u32, y: u32, z: u64) -> (v: Vertex)
    ensures
        v == vtx(x as int, y as int, z as int),
{
    Vertex { x, y, z }
}

fn triangle(a: Vertex, b: Vertex, c: Vertex) -> (t: Triangle)
    ensures
        t == tri(a, b, c),
{
    Triangle { a, b, c }
}

impl HeightField {
    /// The height at `(x, y)`.
    pub fn get(&self, x: u32, y: u32) -> (v: u64)
        requires
            self.wf(),
            x < self.width,
            y < self.height,
        ensures
            v == self.at(x as int, y as int),
    {
        proof {
            assert(y * self.width + x < self.width * self.height) by (nonlinear_arith)
                requires
                    x < self.width,
                    y < self.height,
            ;
        }
        assert(self.cells@.len() == self.cells.len());
        let index: u64 = (y as u64) * (self.width as u64) + (x as u64);
        self.cells[index as usize]
    }
}

/// Appends the triangles of the cell at `(x, y)` to `out`.
fn push_cell(f: &HeightField, x: u32, y: u32, out: &mut Vec<Triangle>)
    requires
        f.wf(),
        x + 1 < f.width,
        y + 1 < f.height,
    ensures
        final(out)@ == old(out)@ + cell_spec(f, x as int, y as int),
{
    let h1 = f.get(x, y);
    let h2 = f.get(x + 1, y);
    let h3 = f.get(x, y + 1);
    let h4 = f.get(x + 1, y + 1);
    if h1 == 0 && h2 == 0 && h3 == 0 && h4 == 0 {
        assert(old(out)@ + cell_spec(f, x as int, y as int) =~= old(out)@);
        return;
    }
    let p1 = vertex(x, y, h1);
    let p2 = vertex(x + 1, y, h2);
    let p3 = vertex(x, y + 1, h3);
    let p4 = vertex(x + 1, y + 1, h4);
    if (h1 as u128) + (h4 as u128) < (h2 as u128) + (h3 as u128) {
        out.push(triangle(p1, p2, p3));
        out.push(triangle(p2, p4, p3));
    } else {
        out.push(triangle(p1, p4, p3));
        out.push(triangle(p1, p2, p4));
    }
    if !f.plate {
        let b1 = vertex(x, y, 0);
        let b2 = vertex(x + 1, y, 0);
        let b3 = vertex(x, y + 1, 0);
        let b4 = vertex(x + 1, y + 1, 0);
        out.push(triangle(b1, b2, b3));
        out.push(triangle(b2, b4, b3));
    }
    assert(out@ =~= old(out)@ + cell_spec(f, x as int, y as int));
}

/// The triangles of the cell whose top-left corner is `(x, y)`.
pub fn cell_triangles(f: &HeightField, x: u32, y: u32) -> (r: Vec<Triangle>)
    requires
        f.wf(),
        x + 1 < f.width,
        y + 1 < f.height,
    ensures
        r@ == cell_spec(f, x as int, y as int),
{
    let mut r: Vec<Triangle> = Vec::new();
    push_cell(f, x, y, &mut r);
    assert(r@ =~= cell_spec(f, x as int, y as int));
    r
}

/// Appends the side wall of the border pair `(x, y)`, `(x, y + 1)`.
fn push_wall_y(f: &HeightField, x: u32, y: u32, out: &mut Vec<Triangle>)
    requires
        f.wf(),
        x < f.width,
        y + 1 < f.height,
    ensures
        final(out)@ == old(out)@ + wall_y_spec(f, x as int, y as int),
{
    let h: u64 = f.get(x, y);
    let next: u64 = f.get(x, y + 1);
    if h != 0 {
        out.push(triangle(vertex(x, y, h), vertex(x, y + 1, 0), vertex(x, y, 0)));
    } else if next != 0 {
        out.push(triangle(vertex(x, y + 1, next), vertex(x, y, 0), vertex(x, y + 1, 0)));
    }
    assert(out@ =~= old(out)@ + wall_y_spec(f, x as int, y as int));
}

/// Appends the side wall of the border pair `(x, y)`, `(x + 1, y)`.
fn push_wall_x(f: &HeightField, x: u32, y: u32, out: &mut Vec<Triangle>)
    requires
        f.wf(),
        x + 1 < f.width,
        y < f.height,
    ensures
        final(out)@ == old(out)@ + wall_x_spec(f, x as int, y as int),
{
    let h: u64 = f.get(x, y);
    let next: u64 = f.get(x + 1, y);
    if h != 0 {
        out.push(triangle(vertex(x, y, h), vertex(x + 1, y, 0), vertex(x, y, 0)));
    } else if next != 0 {
        out.push(triangle(vertex(x + 1, y, next), vertex(x, y, 0), vertex(x + 1, y, 0)));
    }
    assert(out@ =~= old(out)@ + wall_x_spec(f, x as int, y as int));
}

/// Triangulates a height field of at least one cell: the cells row after
/// row, then the side walls along the columns and along the rows, then, in
/// plate mode, the two base triangles.
pub fn build_mesh(f: &HeightField) -> (m: Vec<Triangle>)
    requires
        f.wf(),
        f.width >= 1,
        f.height >= 1,
    ensures
        m@ == mesh_spec(f),
{
    let w: u32 = f.width;
    let h: u32 = f.height;
    let mut out: Vec<Triangle> = Vec::new();
    let mut y: u32 = 0;
    while y < h - 1
        invariant
            f.wf(),
            w == f.width,
            h == f.height,
            h >= 1,
            w >= 1,
            y <= h - 1,
            out@ == top_spec(f, y as nat),
        decreases h - 1 - y,
    {
        let ghost before = out@;
        let mut x: u32 = 0;
        while x < w - 1
            invariant
                f.wf(),
                w == f.width,
                h == f.height,
                w >= 1,
                y < h - 1,
                x <= w - 1,
                out@ == before + row_spec(f, y as int, x as nat),
            decreases w - 1 - x,
        {
            push_cell(f, x, y, &mut out);
            assert(out@ =~= before + row_spec(f, y as int, (x + 1) as nat));
            x = x + 1;
        }
        y = y + 1;
    }
    let ghost top = out@;
    let mut y: u32 = 0;
    while y < h - 1
        invariant
            f.wf(),
            w == f.width,
            h == f.height,
            h >= 1,
            w >= 1,
            y <= h - 1,
            out@ == top + walls_y_spec(f, y as nat),
        decreases h - 1 - y,
    {
        push_wall_y(f, 0, y, &mut out);
        push_wall_y(f, w - 1, y, &mut out);
        assert(out@ =~= top + walls_y_spec(f, (y + 1) as nat));
        y = y + 1;
    }
    let ghost sides = out@;
    let mut x: u32 = 0;
    while x < w - 1
        invariant
            f.wf(),
            w == f.width,
            h == f.height,
            h >= 1,
            w >= 1,
            x <= w - 1,
            out@ == sides + walls_x_spec(f, x as nat),
        decreases w - 1 - x,
    {
        push_wall_x(f, x, 0, &mut out);
        push_wall_x(f, x, h - 1, &mut out);
        assert(out@ =~= sides + walls_x_spec(f, (x + 1) as nat));
        x = x + 1;
    }
    let ghost body = out@;
    if f.plate {
        let origin = vertex(0, 0, 0);
        let far = vertex(w - 1, h - 1, 0);
        out.push(triangle(origin, vertex(0, h - 1, 0), far));
        out.push(triangle(origin, far, vertex(w - 1, 0, 0)));
        assert(out@ =~= body + base_spec(f));
    }
    out
}

/// A cell whose four corner heights are zero contributes no triangle, with
/// or without a base plate.
pub proof fn lemma_empty_cell(f: &HeightField, x: int, y: int)
    requires
        f.at(x, y) == 0,
        f.at(x + 1, y) == 0,
        f.at(x, y + 1) == 0,
        f.at(x + 1, y + 1) == 0,
    ensures
        cell_spec(f, x, y).len() == 0,
{
}

/// Whether every triangle of `s` starts at a vertex above zero height.
pub open spec fn raised(s: Seq<Triangle>) -> bool {
    forall|i: int| 0 <= i < s.len() ==> s[i].a.z >= 1
}

proof fn lemma_raised_concat(s: Seq<Triangle>, t: Seq<Triangle>)
    requires
        raised(s),
        raised(t),
    ensures
        raised(s + t),
{
    assert forall|i: int| 0 <= i < (s + t).len() implies (s + t)[i].a.z >= 1 by {
        if i >= s.len() {
            assert((s + t)[i] == t[i - s.len()]);
        }
    }
}

proof fn lemma_plate_height(f: &HeightField, x: int, y: int)
    requires
        f.wf(),
        f.plate,
        0 <= x < f.width,
        0 <= y < f.height,
    ensures
        f.at(x, y) >= 1,
{
    assert(0 <= y * f.width + x < f.width * f.height) by (nonlinear_arith)
        requires
            0 <= x < f.width,
            0 <= y < f.height,
    ;
}

proof fn lemma_top_raised(f: &HeightField, rows: nat)
    requires
        f.wf(),
        f.plate,
        f.width >= 1,
        rows < f.height,
    ensures
        raised(top_spec(f, rows)),
    decreases rows,
{
    if rows > 0 {
        lemma_top_raised(f, (rows - 1) as nat);
        lemma_row_raised(f, rows - 1, (f.width - 1) as nat);
        lemma_raised_concat(top_spec(f, (rows - 1) as nat), row_spec(f, rows - 1, (f.width - 1) as nat));
    }
}

proof fn lemma_row_raised(f: &HeightField, y: int, n: nat)
    requires
        f.wf(),
        f.plate,
        0 <= y < f.height - 1,
        n < f.width,
    ensures
        raised(row_spec(f, y, n)),
    decreases n,
{
    if n > 0 {
        lemma_row_raised(f, y, (n - 1) as nat);
        let x = n - 1;
        lemma_plate_height(f, x, y);
        lemma_plate_height(f, x + 1, y);
        lemma_raised_concat(row_spec(f, y, (n - 1) as nat), cell_spec(f, x, y));
    }
}

proof fn lemma_walls_y_raised(f: &HeightField, n: nat)
    requires
        f.wf(),
        f.plate,
        f.width >= 1,
        n < f.height,
    ensures
        raised(walls_y_spec(f, n)),
    decreases n,
{
    if n > 0 {
        lemma_walls_y_raised(f, (n - 1) as nat);
        let y = n - 1;
        lemma_plate_height(f, 0, y);
        lemma_plate_height(f, 0, y + 1);
        lemma_plate_height(f, f.width - 1, y);
        lemma_plate_height(f, f.width - 1, y + 1);
        let first = walls_y_spec(f, (n - 1) as nat);
        lemma_raised_concat(first, wall_y_spec(f, 0, y));
        lemma_raised_concat(first + wall_y_spec(f, 0, y), wall_y_spec(f, f.width - 1, y));
    }
}

proof fn lemma_walls_x_raised(f: &HeightField, n: nat)
    requires
        f.wf(),
        f.plate,
        f.height >= 1,
        n < f.width,
    ensures
        raised(walls_x_spec(f, n)),
    decreases n,
{
    if n > 0 {
        lemma_walls_x_raised(f, (n - 1) as nat);
        let x = n - 1;
        lemma_plate_height(f, x, 0);
        lemma_plate_height(f, x + 1, 0);
        lemma_plate_height(f, x, f.height - 1);
        lemma_plate_height(f, x + 1, f.height - 1);
        let first = walls_x_spec(f, (n - 1) as nat);
        lemma_raised_concat(first, wall_x_spec(f, x, 0));
        lemma_raised_concat(first + wall_x_spec(f, x, 0), wall_x_spec(f, x, f.height - 1));
    }
}

/// In plate mode the mesh ends with the two base triangles, which span the
/// grid from `(0, 0)` to `(width - 1, height - 1)` at zero height, and every
/// triangle before them starts above zero height: the base appears once,
/// whatever the size of the grid.
pub proof fn lemma_plate_closure(f: &HeightField)
    requires
        f.wf(),
        f.plate,
        f.width >= 1,
        f.height >= 1,
    ensures
        mesh_spec(f).len() >= 2,
        mesh_spec(f).subrange(mesh_spec(f).len() - 2, mesh_spec(f).len() as int) == base_spec(f),
        raised(mesh_spec(f).subrange(0, mesh_spec(f).len() - 2)),
        forall|i: int| #![auto] 0 <= i < 2 ==> {
            &&& base_spec(f)[i].a.z == 0
            &&& base_spec(f)[i].b.z == 0
            &&& base_spec(f)[i].c.z == 0
        },
{
    let n = (f.height - 1) as nat;
    let top = top_spec(f, n);
    let walls_y = walls_y_spec(f, n);
    let walls_x = walls_x_spec(f, (f.width - 1) as nat);
    lemma_top_raised(f, n);
    lemma_walls_y_raised(f, n);
    lemma_walls_x_raised(f, (f.width - 1) as nat);
    lemma_raised_concat(top, walls_y);
    lemma_raised_concat(top + walls_y, walls_x);
    let body = top + walls_y + walls_x;
    let m = mesh_spec(f);
    assert(m.subrange(m.len() - 2, m.len() as int) =~= base_spec(f));
    assert(m.subrange(0, m.len() - 2) =~= body);
}

} // verus!
