//! Index topology of the generated meshes: the triangle lists of fans,
//! ellipse fills and outlines, lines, the re-basing of indices when meshes
//! are joined, and the neighbours of a polygon vertex.
use vstd::prelude::*;

verus! {

/// On which side of the path a stroked line lies.
#[derive(Copy, Clone, Debug, PartialEq, Eq, Structural)]
pub enum LineStyle {
    Center,
    Left,
    Right,
}

/// Every index of `s` names one of the first `bound` vertices.
pub open spec fn all_below(s: Seq<u32>, bound: int) -> bool {
    forall|k: int| 0 <= k < s.len() ==> s[k] < bound
}

/// `s` with `start` added to every index.
pub open spec fn shifted(s: Seq<u32>, start: u32) -> Seq<u32> {
    s.map_values(|i: u32| (i + start) as u32)
}

/// Appends the indices of another mesh, re-based past the `start` vertices
/// that come before that mesh's own.
pub fn append_shifted(indices: &mut Vec<u32>, other: &Vec<u32>, start: u32)
    requires
        forall|k: int| 0 <= k < other@.len() ==> other@[k] + start <= u32::MAX,
    ensures
        final(indices)@ == old(indices)@ + shifted(other@, start),
{
    let ghost before = indices@;
    let mut j: usize = 0;
    while j < other.len()
        invariant
            j <= other@.len(),
            forall|k: int| 0 <= k < other@.len() ==> other@[k] + start <= u32::MAX,
            indices@ == before + shifted(other@.take(j as int), start),
        decreases other@.len() - j,
    {
        let v = other[j] + start;
        indices.push(v);
        j = j + 1;
        proof {
            assert(shifted(other@.take(j as int), start) =~= shifted(
                other@.take(j - 1),
                start,
            ).push(v));
        }
    }
    proof {
        assert(other@.take(other@.len() as int) =~= other@);
    }
}

/// Joining two meshes keeps every index in range: indices that named the
/// vertices of their own mesh name vertices of the joined one.
pub proof fn law_append_keeps_indices_in_range(a: Seq<u32>, na: u32, b: Seq<u32>, nb: int)
    requires
        all_below(a, na as int),
        all_below(b, nb),
        0 <= nb,
        na + nb <= u32::MAX + 1,
    ensures
        all_below(a + shifted(b, na), na + nb),
{
    assert forall|k: int| 0 <= k < (a + shifted(b, na)).len() implies (a + shifted(b, na))[k]
        < na + nb by {
        if k >= a.len() {
            let j = k - a.len();
            assert(b[j] < nb);
            assert(shifted(b, na)[j] == (b[j] + na) as u32);
            assert((a + shifted(b, na))[k] == shifted(b, na)[j]);
        }
    }
}

/// Joining a mesh's indices onto another's keeps the first mesh's indices
/// as they were and places the second mesh's after them, each raised by
/// `start`, the vertex count before the second mesh.
pub proof fn law_append_places_shifted_indices(a: Seq<u32>, b: Seq<u32>, start: u32)
    requires
        forall|k: int| 0 <= k < b.len() ==> b[k] + start <= u32::MAX,
    ensures
        (a + shifted(b, start)).len() == a.len() + b.len(),
        forall|k: int| 0 <= k < a.len() ==> #[trigger] (a + shifted(b, start))[k] == a[k],
        forall|j: int|
            0 <= j < b.len() ==> #[trigger] (a + shifted(b, start))[a.len() + j] == b[j] + start,
{
    assert forall|j: int| 0 <= j < b.len() implies #[trigger] (a + shifted(b, start))[a.len() + j]
        == b[j] + start by {
        assert((a + shifted(b, start))[a.len() + j] == shifted(b, start)[j]);
    }
}

/// Re-basing twice is re-basing once by the sum: joining meshes one after
/// another shifts each mesh's indices by the vertex count of all the meshes
/// before it.
pub proof fn law_shift_twice(s: Seq<u32>, a: u32, b: u32)
    requires
        forall|k: int| 0 <= k < s.len() ==> s[k] + a + b <= u32::MAX,
    ensures
        shifted(shifted(s, a), b) == shifted(s, (a + b) as u32),
{
    assert(shifted(shifted(s, a), b) =~= shifted(s, (a + b) as u32));
}

/// The triangles `[0, i, i - 1]` for `i` from 1 to `k`: a fan around vertex
/// 0 over the rim vertices 0 to `k`.
pub open spec fn fan_triangles(k: nat) -> Seq<u32>
    decreases k,
{
    if k == 0 {
        Seq::empty()
    } else {
        fan_triangles((k - 1) as nat) + seq![0u32, k as u32, (k - 1) as u32]
    }
}

/// The triangles `[0, i + 1, i]` for `i` from 1 to `k`.
pub open spec fn path_fan_triangles(k: nat) -> Seq<u32>
    decreases k,
{
    if k == 0 {
        Seq::empty()
    } else {
        path_fan_triangles((k - 1) as nat) + seq![0u32, (k + 1) as u32, k as u32]
    }
}

/// The quads between an outer and an inner rim of `k + 1` vertex pairs,
/// pair `i` being the vertices `2i` (outer) and `2i + 1` (inner); each quad
/// is the triangles `[2i-2, 2i-1, 2i]` and `[2i, 2i-1, 2i+1]`.
pub open spec fn band_triangles(k: nat) -> Seq<u32>
    decreases k,
{
    if k == 0 {
        Seq::empty()
    } else {
        band_triangles((k - 1) as nat) + seq![
            (2 * k - 2) as u32,
            (2 * k - 1) as u32,
            (2 * k) as u32,
            (2 * k) as u32,
            (2 * k - 1) as u32,
            (2 * k + 1) as u32,
        ]
    }
}

/// Indices of a fan of `n` vertices: vertex 0 is the centre and the others
/// are its rim in order; the last triangle closes the rim.
pub open spec fn triangle_fan_spec(n: nat) -> Seq<u32> {
    fan_triangles((n - 1) as nat) + seq![0u32, 1u32, (n - 1) as u32]
}

/// Indices of a filled path fan of `n` vertices.
pub open spec fn path_fan_spec(n: nat) -> Seq<u32> {
    path_fan_triangles((n - 1) as nat) + seq![0u32, 1u32, (n - 1) as u32]
}

/// Indices of a filled ellipse arc of `steps` angle steps: the centre, then
/// `steps + 2` rim vertices.
pub open spec fn oval_filled_spec(steps: nat) -> Seq<u32> {
    fan_triangles(steps) + seq![
        0u32,
        (steps + 2) as u32,
        (steps + 1) as u32,
        0u32,
        (steps + 1) as u32,
        steps as u32,
    ]
}

/// Indices of an outlined ellipse arc of `steps` angle steps: `steps + 2`
/// pairs of outer and inner vertices.
pub open spec fn oval_outlined_spec(steps: nat) -> Seq<u32> {
    band_triangles(steps + 1)
}

proof fn lemma_fan_triangles(k: nat)
    ensures
        fan_triangles(k).len() == 3 * k,
        all_below(fan_triangles(k), k + 1int),
    decreases k,
{
    if k > 0 {
        lemma_fan_triangles((k - 1) as nat);
    }
}

proof fn lemma_path_fan_triangles(k: nat)
    ensures
        path_fan_triangles(k).len() == 3 * k,
        all_below(path_fan_triangles(k), k + 2int),
    decreases k,
{
    if k > 0 {
        lemma_path_fan_triangles((k - 1) as nat);
    }
}

proof fn lemma_band_triangles(k: nat)
    ensures
        band_triangles(k).len() == 6 * k,
        all_below(band_triangles(k), 2 * k + 2int),
    decreases k,
{
    if k > 0 {
        lemma_band_triangles((k - 1) as nat);
    }
}

/// Index list of a triangle fan over `vertex_count` vertices (the centre
/// first): `[0, i, i - 1]` for every rim vertex `i`, then `[0, 1, n - 1]`.
pub fn fan_indices(vertex_count: u32) -> (indices: Vec<u32>)
    requires
        vertex_count >= 1,
    ensures
        indices@ == triangle_fan_spec(vertex_count as nat),
{
    let mut indices: Vec<u32> = Vec::new();
    let mut i: u32 = 1;
    while i < vertex_count
        invariant
            1 <= i <= vertex_count,
            indices@ == fan_triangles((i - 1) as nat),
        decreases vertex_count - i,
    {
        indices.push(0);
        indices.push(i);
        indices.push(i - 1);
        proof {
            assert(indices@ =~= fan_triangles(i as nat));
        }
        i = i + 1;
    }
    indices.push(0);
    indices.push(1);
    indices.push(vertex_count - 1);
    proof {
        assert(indices@ =~= triangle_fan_spec(vertex_count as nat));
    }
    indices
}

/// Index list of a filled path fan over `vertex_count` vertices (the
/// centre first): `[0, i + 1, i]` for every `i` from 1 below the count,
/// then `[0, 1, n - 1]`.
pub fn path_fan_indices(vertex_count: u32) -> (indices: Vec<u32>)
    requires
        vertex_count >= 1,
    ensures
        indices@ == path_fan_spec(vertex_count as nat),
{
    let mut indices: Vec<u32> = Vec::new();
    let mut i: u32 = 1;
    while i < vertex_count
        invariant
            1 <= i <= vertex_count,
            indices@ == path_fan_triangles((i - 1) as nat),
        decreases vertex_count - i,
    {
        indices.push(0);
        indices.push(i + 1);
        indices.push(i);
        proof {
            assert(indices@ =~= path_fan_triangles(i as nat));
        }
        i = i + 1;
    }
    indices.push(0);
    indices.push(1);
    indices.push(vertex_count - 1);
    proof {
        assert(indices@ =~= path_fan_spec(vertex_count as nat));
    }
    indices
}

/// Index list of a filled ellipse arc drawn in `steps` angle steps.
pub fn oval_filled_indices(steps: u32) -> (indices: Vec<u32>)
    requires
        steps + 2 <= u32::MAX,
    ensures
        indices@ == oval_filled_spec(steps as nat),
{
    let mut indices: Vec<u32> = Vec::new();
    let mut i: u32 = 1;
    while i <= steps
        invariant
            1 <= i <= steps + 1,
            steps + 2 <= u32::MAX,
            indices@ == fan_triangles((i - 1) as nat),
        decreases steps + 1 - i,
    {
        indices.push(0);
        indices.push(i);
        indices.push(i - 1);
        proof {
            assert(indices@ =~= fan_triangles(i as nat));
        }
        i = i + 1;
    }
    indices.push(0);
    indices.push(steps + 2);
    indices.push(steps + 1);
    indices.push(0);
    indices.push(steps + 1);
    indices.push(steps);
    proof {
        assert(indices@ =~= oval_filled_spec(steps as nat));
    }
    indices
}

/// Index list of an outlined ellipse arc drawn in `steps` angle steps.
pub fn oval_outlined_indices(steps: u32) -> (indices: Vec<u32>)
    requires
        2 * steps + 3 <= u32::MAX,
    ensures
        indices@ == oval_outlined_spec(steps as nat),
{
    let mut indices: Vec<u32> = Vec::new();
    let mut i: u32 = 1;
    while i <= steps + 1
        invariant
            1 <= i <= steps + 2,
            2 * steps + 3 <= u32::MAX,
            indices@ == band_triangles((i - 1) as nat),
        decreases steps + 2 - i,
    {
        let v0 = i * 2 - 2;
        let v1 = i * 2 - 1;
        let v2 = i * 2;
        let v3 = i * 2 + 1;
        indices.push(v0);
        indices.push(v1);
        indices.push(v2);
        indices.push(v2);
        indices.push(v1);
        indices.push(v3);
        proof {
            assert(indices@ =~= band_triangles(i as nat));
        }
        i = i + 1;
    }
    indices
}

/// Index list of a stroked line's quad; the winding depends on whether the
/// line runs towards larger y.
pub fn line_indices(ascending: bool) -> (indices: Vec<u32>)
    ensures
        ascending ==> indices@ == seq![2u32, 1, 0, 3, 2, 0],
        !ascending ==> indices@ == seq![0u32, 1, 2, 0, 2, 3],
{
    if ascending {
        vec![2, 1, 0, 3, 2, 0]
    } else {
        vec![0, 1, 2, 0, 2, 3]
    }
}

/// A triangle fan over at least two vertices only names its own vertices,
/// and has one triangle per vertex.
pub proof fn law_fan_indices_in_range(n: nat)
    requires
        n >= 2,
    ensures
        all_below(triangle_fan_spec(n), n as int),
        triangle_fan_spec(n).len() == 3 * n,
{
    lemma_fan_triangles((n - 1) as nat);
}

/// A filled ellipse arc of `steps` steps only names its own `steps + 3`
/// vertices.
pub proof fn law_oval_filled_in_range(steps: nat)
    ensures
        all_below(oval_filled_spec(steps), steps + 3int),
        oval_filled_spec(steps).len() == 3 * steps + 6,
{
    lemma_fan_triangles(steps);
}

/// An outlined ellipse arc of `steps` steps only names its own
/// `2 * steps + 4` vertices, two triangles per step and two more.
pub proof fn law_oval_outlined_in_range(steps: nat)
    ensures
        all_below(oval_outlined_spec(steps), 2 * steps + 4int),
        oval_outlined_spec(steps).len() == 6 * steps + 6,
{
    lemma_band_triangles(steps + 1);
}

/// A filled path fan over `n` vertices names vertex `n`, one past its last
/// vertex: its next-to-last triangle reaches beyond the rim.
pub proof fn law_path_fan_reaches_past_rim(n: nat)
    requires
        n >= 1,
        n <= u32::MAX,
    ensures
        path_fan_spec(n).contains(n as u32),
        all_below(path_fan_spec(n), n + 1int),
{
    lemma_path_fan_triangles((n - 1) as nat);
    if n >= 2 {
        let k = (n - 1) as nat;
        assert(path_fan_triangles(k) == path_fan_triangles((k - 1) as nat) + seq![
            0u32,
            (k + 1) as u32,
            k as u32,
        ]);
        lemma_path_fan_triangles((k - 1) as nat);
        assert(path_fan_spec(n)[3 * k - 2] == n as u32);
    } else {
        assert(path_fan_spec(n)[1] == n as u32);
    }
}

/// Triangle `i` of a fan (for `i` below `k`) is `[0, i + 1, i]`: the centre
/// and two consecutive rim vertices, so the triangles together cover the
/// fan without gaps.
proof fn lemma_fan_closed_form(k: nat)
    requires
        k <= u32::MAX,
    ensures
        fan_triangles(k).len() == 3 * k,
        forall|i: int|
            0 <= i < k ==> {
                &&& #[trigger] fan_triangles(k)[3 * i] == 0
                &&& fan_triangles(k)[3 * i + 1] == i + 1
                &&& fan_triangles(k)[3 * i + 2] == i
            },
    decreases k,
{
    if k > 0 {
        lemma_fan_closed_form((k - 1) as nat);
        let prev = fan_triangles((k - 1) as nat);
        let cur = fan_triangles(k);
        assert forall|i: int| 0 <= i < k implies {
            &&& #[trigger] cur[3 * i] == 0
            &&& cur[3 * i + 1] == i + 1
            &&& cur[3 * i + 2] == i
        } by {
            if i < k - 1 {
                assert(cur[3 * i] == prev[3 * i]);
                assert(cur[3 * i + 1] == prev[3 * i + 1]);
                assert(cur[3 * i + 2] == prev[3 * i + 2]);
            }
        }
    }
}

/// Triangle `i` of a path fan (for `i` below `k`) is `[0, i + 2, i + 1]`.
proof fn lemma_path_fan_closed_form(k: nat)
    requires
        k + 1 <= u32::MAX,
    ensures
        path_fan_triangles(k).len() == 3 * k,
        forall|i: int|
            0 <= i < k ==> {
                &&& #[trigger] path_fan_triangles(k)[3 * i] == 0
                &&& path_fan_triangles(k)[3 * i + 1] == i + 2
                &&& path_fan_triangles(k)[3 * i + 2] == i + 1
            },
    decreases k,
{
    if k > 0 {
        lemma_path_fan_closed_form((k - 1) as nat);
        let prev = path_fan_triangles((k - 1) as nat);
        let cur = path_fan_triangles(k);
        assert forall|i: int| 0 <= i < k implies {
            &&& #[trigger] cur[3 * i] == 0
            &&& cur[3 * i + 1] == i + 2
            &&& cur[3 * i + 2] == i + 1
        } by {
            if i < k - 1 {
                assert(cur[3 * i] == prev[3 * i]);
                assert(cur[3 * i + 1] == prev[3 * i + 1]);
                assert(cur[3 * i + 2] == prev[3 * i + 2]);
            }
        }
    }
}

/// Quad `i` of a band (for `i` below `k`) is the triangles
/// `[2i, 2i + 1, 2i + 2]` and `[2i + 2, 2i + 1, 2i + 3]`.
proof fn lemma_band_closed_form(k: nat)
    requires
        2 * k + 1 <= u32::MAX,
    ensures
        band_triangles(k).len() == 6 * k,
        forall|i: int|
            0 <= i < k ==> {
                &&& #[trigger] band_triangles(k)[6 * i] == 2 * i
                &&& band_triangles(k)[6 * i + 1] == 2 * i + 1
                &&& band_triangles(k)[6 * i + 2] == 2 * i + 2
                &&& band_triangles(k)[6 * i + 3] == 2 * i + 2
                &&& band_triangles(k)[6 * i + 4] == 2 * i + 1
                &&& band_triangles(k)[6 * i + 5] == 2 * i + 3
            },
    decreases k,
{
    if k > 0 {
        lemma_band_closed_form((k - 1) as nat);
        let prev = band_triangles((k - 1) as nat);
        let cur = band_triangles(k);
        assert forall|i: int| 0 <= i < k implies {
            &&& #[trigger] cur[6 * i] == 2 * i
            &&& cur[6 * i + 1] == 2 * i + 1
            &&& cur[6 * i + 2] == 2 * i + 2
            &&& cur[6 * i + 3] == 2 * i + 2
            &&& cur[6 * i + 4] == 2 * i + 1
            &&& cur[6 * i + 5] == 2 * i + 3
        } by {
            if i < k - 1 {
                assert(cur[6 * i] == prev[6 * i]);
                assert(cur[6 * i + 1] == prev[6 * i + 1]);
                assert(cur[6 * i + 2] == prev[6 * i + 2]);
                assert(cur[6 * i + 3] == prev[6 * i + 3]);
                assert(cur[6 * i + 4] == prev[6 * i + 4]);
                assert(cur[6 * i + 5] == prev[6 * i + 5]);
            }
        }
    }
}

/// A triangle fan over `n` vertices (the centre first) has one triangle per
/// rim edge: triangle `i` joins the centre to the consecutive rim vertices
/// `i + 1` and `i`, and the last one closes the rim from vertex 1 to vertex
/// `n - 1`.
pub proof fn law_fan_triangles_join_consecutive_rim_vertices(n: nat)
    requires
        1 <= n <= u32::MAX,
    ensures
        triangle_fan_spec(n).len() == 3 * n,
        forall|i: int|
            0 <= i < n - 1 ==> {
                &&& #[trigger] triangle_fan_spec(n)[3 * i] == 0
                &&& triangle_fan_spec(n)[3 * i + 1] == i + 1
                &&& triangle_fan_spec(n)[3 * i + 2] == i
            },
        triangle_fan_spec(n)[3 * n - 3] == 0,
        triangle_fan_spec(n)[3 * n - 2] == 1,
        triangle_fan_spec(n)[3 * n - 1] == n - 1,
{
    let k = (n - 1) as nat;
    lemma_fan_closed_form(k);
    let t = triangle_fan_spec(n);
    assert forall|i: int| 0 <= i < n - 1 implies {
        &&& #[trigger] t[3 * i] == 0
        &&& t[3 * i + 1] == i + 1
        &&& t[3 * i + 2] == i
    } by {
        assert(t[3 * i] == fan_triangles(k)[3 * i]);
        assert(t[3 * i + 1] == fan_triangles(k)[3 * i + 1]);
        assert(t[3 * i + 2] == fan_triangles(k)[3 * i + 2]);
    }
}

/// A filled path fan over `n` vertices: triangle `i` (below `n - 1`) joins
/// the centre to vertices `i + 2` and `i + 1`, and the last triangle is
/// `[0, 1, n - 1]`.
pub proof fn law_path_fan_triangles(n: nat)
    requires
        1 <= n <= u32::MAX,
    ensures
        path_fan_spec(n).len() == 3 * n,
        forall|i: int|
            0 <= i < n - 1 ==> {
                &&& #[trigger] path_fan_spec(n)[3 * i] == 0
                &&& path_fan_spec(n)[3 * i + 1] == i + 2
                &&& path_fan_spec(n)[3 * i + 2] == i + 1
            },
        path_fan_spec(n)[3 * n - 3] == 0,
        path_fan_spec(n)[3 * n - 2] == 1,
        path_fan_spec(n)[3 * n - 1] == n - 1,
{
    let k = (n - 1) as nat;
    lemma_path_fan_closed_form(k);
    let t = path_fan_spec(n);
    assert forall|i: int| 0 <= i < n - 1 implies {
        &&& #[trigger] t[3 * i] == 0
        &&& t[3 * i + 1] == i + 2
        &&& t[3 * i + 2] == i + 1
    } by {
        assert(t[3 * i] == path_fan_triangles(k)[3 * i]);
        assert(t[3 * i + 1] == path_fan_triangles(k)[3 * i + 1]);
        assert(t[3 * i + 2] == path_fan_triangles(k)[3 * i + 2]);
    }
}

/// A filled ellipse arc of `steps` steps is a fan around vertex 0 over the
/// rim vertices 0 to `steps + 2`: triangle `i` (up to `steps`) is
/// `[0, i + 1, i]`, then come `[0, steps + 2, steps + 1]` and
/// `[0, steps + 1, steps]`.
pub proof fn law_oval_filled_triangles(steps: nat)
    requires
        steps + 2 <= u32::MAX,
    ensures
        oval_filled_spec(steps).len() == 3 * steps + 6,
        forall|i: int|
            0 <= i < steps ==> {
                &&& #[trigger] oval_filled_spec(steps)[3 * i] == 0
                &&& oval_filled_spec(steps)[3 * i + 1] == i + 1
                &&& oval_filled_spec(steps)[3 * i + 2] == i
            },
        oval_filled_spec(steps)[3 * steps as int] == 0,
        oval_filled_spec(steps)[3 * steps as int + 1] == steps + 2,
        oval_filled_spec(steps)[3 * steps as int + 2] == steps + 1,
        oval_filled_spec(steps)[3 * steps as int + 3] == 0,
        oval_filled_spec(steps)[3 * steps as int + 4] == steps + 1,
        oval_filled_spec(steps)[3 * steps as int + 5] == steps,
{
    lemma_fan_closed_form(steps);
    let t = oval_filled_spec(steps);
    assert forall|i: int| 0 <= i < steps implies {
        &&& #[trigger] t[3 * i] == 0
        &&& t[3 * i + 1] == i + 1
        &&& t[3 * i + 2] == i
    } by {
        assert(t[3 * i] == fan_triangles(steps)[3 * i]);
        assert(t[3 * i + 1] == fan_triangles(steps)[3 * i + 1]);
        assert(t[3 * i + 2] == fan_triangles(steps)[3 * i + 2]);
    }
}

/// An outlined ellipse arc of `steps` steps is a band over `steps + 2` pairs
/// of outer (even) and inner (odd) vertices: quad `i` is the triangles
/// `[2i, 2i + 1, 2i + 2]` and `[2i + 2, 2i + 1, 2i + 3]`.
pub proof fn law_oval_outlined_quads(steps: nat)
    requires
        2 * steps + 3 <= u32::MAX,
    ensures
        oval_outlined_spec(steps).len() == 6 * steps + 6,
        forall|i: int|
            0 <= i <= steps ==> {
                &&& #[trigger] oval_outlined_spec(steps)[6 * i] == 2 * i
                &&& oval_outlined_spec(steps)[6 * i + 1] == 2 * i + 1
                &&& oval_outlined_spec(steps)[6 * i + 2] == 2 * i + 2
                &&& oval_outlined_spec(steps)[6 * i + 3] == 2 * i + 2
                &&& oval_outlined_spec(steps)[6 * i + 4] == 2 * i + 1
                &&& oval_outlined_spec(steps)[6 * i + 5] == 2 * i + 3
            },
{
    lemma_band_closed_form(steps + 1);
}

/// The edges of `edges` that touch vertex `index`, in order.
pub open spec fn incident_edges(edges: Seq<(usize, usize)>, index: usize) -> Seq<(usize, usize)>
    decreases edges.len(),
{
    if edges.len() == 0 {
        Seq::empty()
    } else {
        let rest = incident_edges(edges.drop_last(), index);
        let e = edges.last();
        if e.0 == index || e.1 == index {
            rest.push(e)
        } else {
            rest
        }
    }
}

/// The end of edge `e` that is not `index` (its start when neither is).
pub open spec fn other_end(e: (usize, usize), index: usize) -> usize {
    if e.0 == index {
        e.1
    } else {
        e.0
    }
}

/// The neighbours of vertex `index`: the far ends of the edges that touch
/// it when there are one or two such edges, and none otherwise.
pub open spec fn vertex_neighbors_spec(edges: Seq<(usize, usize)>, index: usize) -> Seq<usize> {
    let inc = incident_edges(edges, index);
    if inc.len() == 1 {
        seq![other_end(inc[0], index)]
    } else if inc.len() == 2 {
        seq![other_end(inc[0], index), other_end(inc[1], index)]
    } else {
        Seq::empty()
    }
}

proof fn lemma_incident_prefix(edges: Seq<(usize, usize)>, index: usize, i: int)
    requires
        0 <= i < edges.len(),
    ensures
        edges.take(i + 1).drop_last() == edges.take(i),
        edges.take(i + 1).last() == edges[i],
        incident_edges(edges.take(i + 1), index) == if edges[i].0 == index || edges[i].1
            == index {
            incident_edges(edges.take(i), index).push(edges[i])
        } else {
            incident_edges(edges.take(i), index)
        },
{
    assert(edges.take(i + 1).drop_last() =~= edges.take(i));
}

/// Indices of the neighbours of vertex `index` along the polygon's edges.
pub fn vertex_neighbor_indices(edges: &Vec<(usize, usize)>, index: usize) -> (neighbors: Vec<usize>)
    ensures
        neighbors@ == vertex_neighbors_spec(edges@, index),
{
    let mut count: usize = 0;
    let mut first: (usize, usize) = (0, 0);
    let mut second: (usize, usize) = (0, 0);
    let mut i: usize = 0;
    while i < edges.len()
        invariant
            i <= edges@.len(),
            count == incident_edges(edges@.take(i as int), index).len(),
            count <= i,
            count >= 1 ==> first == incident_edges(edges@.take(i as int), index)[0],
            count >= 2 ==> second == incident_edges(edges@.take(i as int), index)[1],
        decreases edges@.len() - i,
    {
        let e = edges[i];
        proof {
            lemma_incident_prefix(edges@, index, i as int);
        }
        if e.0 == index || e.1 == index {
            if count == 0 {
                first = e;
            } else if count == 1 {
                second = e;
            }
            count = count + 1;
        }
        i = i + 1;
    }
    proof {
        assert(edges@.take(edges@.len() as int) =~= edges@);
    }
    let mut result: Vec<usize> = Vec::new();
    if count == 1 {
        result.push(if first.0 == index { first.1 } else { first.0 });
    } else if count == 2 {
        result.push(if first.0 == index { first.1 } else { first.0 });
        result.push(if second.0 == index { second.1 } else { second.0 });
    }
    proof {
        assert(result@ =~= vertex_neighbors_spec(edges@, index));
    }
    result
}

/// Edge `e` has vertex `index` at one of its ends.
pub open spec fn touches(e: (usize, usize), index: usize) -> bool {
    e.0 == index || e.1 == index
}

proof fn lemma_incident_is_filter(edges: Seq<(usize, usize)>, index: usize)
    ensures
        incident_edges(edges, index) == edges.filter(|e: (usize, usize)| touches(e, index)),
    decreases edges.len(),
{
    reveal(Seq::filter);
    if edges.len() > 0 {
        lemma_incident_is_filter(edges.drop_last(), index);
    }
}

/// The neighbours of a vertex are the far ends of the edges that touch it:
/// with one or two such edges, the `k`-th neighbour is the end of the `k`-th
/// touching edge that is not the vertex (its start when the edge starts at
/// neither end, which cannot happen, and the vertex itself only for a
/// self-loop); with none or more than two there are no neighbours.
pub proof fn law_neighbors_are_far_ends(edges: Seq<(usize, usize)>, index: usize)
    ensures
        ({
            let t = edges.filter(|e: (usize, usize)| touches(e, index));
            let r = vertex_neighbors_spec(edges, index);
            &&& r.len() == (if t.len() == 1 || t.len() == 2 {
                t.len() as int
            } else {
                0
            })
            &&& forall|k: int|
                0 <= k < r.len() ==> {
                    &&& t[k].0 == index ==> r[k] == t[k].1
                    &&& t[k].0 != index ==> t[k].1 == index && r[k] == t[k].0
                }
        }),
{
    lemma_incident_is_filter(edges, index);
    let t = edges.filter(|e: (usize, usize)| touches(e, index));
    assert forall|k: int| 0 <= k < t.len() implies touches(#[trigger] t[k], index) by {
        edges.lemma_filter_pred(|e: (usize, usize)| touches(e, index), k);
    }
}

} // verus!
