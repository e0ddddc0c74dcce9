//! Bookkeeping of the shape renderer: where each drawn object's geometry
//! lives, how a mesh is to be drawn, and the draw calls of a frame.
use vstd::prelude::*;

verus! {

/// Where the geometry of one drawn object lives: either in a buffer of its
/// own (`bo_slot`), or in a range of the frame's shared index buffer.
#[derive(Copy, Clone, Debug)]
pub struct SSRObjectInfo {
    /// Slot of the object's own mesh buffer, if it has one.
    pub bo_slot: Option<usize>,
    /// Texture the object is drawn with, if any.
    pub texture: Option<usize>,
    /// First index of the object in the shared index buffer.
    pub start_index: u32,
    /// One past the last index of the object in the shared index buffer.
    pub end_index: u32,
    /// Vertex that the object's indices count from.
    pub start_vertice: u32,
}

impl SSRObjectInfo {
    /// The record of an object that has a mesh buffer of its own.
    pub fn buffered(slot: usize, texture: Option<usize>) -> (info: Self)
        ensures
            info.bo_slot == Some(slot),
            info.texture == texture,
            info.start_index == 0,
            info.end_index == 0,
            info.start_vertice == 0,
    {
        SSRObjectInfo {
            bo_slot: Some(slot),
            start_vertice: 0,
            start_index: 0,
            end_index: 0,
            texture,
        }
    }

    /// The record of a mesh appended to the shared buffers, which held
    /// `start_vertex` vertices and `start_index` indices before it and
    /// `end_index` indices after it. Positions past `u32::MAX` wrap.
    pub fn batched(start_vertex: usize, start_index: usize, end_index: usize, texture: Option<
        usize,
    >) -> (info: Self)
        ensures
            info.bo_slot is None,
            info.texture == texture,
            info.start_vertice == start_vertex as u32,
            info.start_index == start_index as u32,
            info.end_index == end_index as u32,
    {
        SSRObjectInfo {
            bo_slot: None,
            start_vertice: start_vertex as u32,
            start_index: start_index as u32,
            end_index: end_index as u32,
            texture,
        }
    }
}

/// Appends a mesh to the frame's shared vertex and index buffers and
/// returns the record under which it is drawn: its indices keep counting
/// from its own first vertex, which the record names, and the record holds
/// the range of the shared index buffer that the mesh's indices fill.
pub fn append_batched<V: Copy>(
    vertices: &mut Vec<V>,
    indices: &mut Vec<u32>,
    mesh_vertices: &[V],
    mesh_indices: &[u32],
    texture: Option<usize>,
) -> (info: SSRObjectInfo)
    requires
        old(indices)@.len() + mesh_indices@.len() <= usize::MAX,
        old(vertices)@.len() + mesh_vertices@.len() <= usize::MAX,
    ensures
        final(vertices)@ == old(vertices)@ + mesh_vertices@,
        final(indices)@ == old(indices)@ + mesh_indices@,
        info.bo_slot is None,
        info.texture == texture,
        info.start_vertice == old(vertices)@.len() as u32,
        info.start_index == old(indices)@.len() as u32,
        info.end_index == (old(indices)@.len() + mesh_indices@.len()) as u32,
{
    let start_vertex = vertices.len();
    let start_index = indices.len();
    let ghost vs = vertices@;
    let ghost is = indices@;
    let mut i: usize = 0;
    while i < mesh_vertices.len()
        invariant
            i <= mesh_vertices@.len(),
            vertices@ == vs + mesh_vertices@.take(i as int),
        decreases mesh_vertices@.len() - i,
    {
        vertices.push(mesh_vertices[i]);
        i = i + 1;
        proof {
            assert(mesh_vertices@.take(i as int) =~= mesh_vertices@.take(i - 1).push(
                mesh_vertices@[i - 1],
            ));
        }
    }
    let mut j: usize = 0;
    while j < mesh_indices.len()
        invariant
            j <= mesh_indices@.len(),
            indices@ == is + mesh_indices@.take(j as int),
        decreases mesh_indices@.len() - j,
    {
        indices.push(mesh_indices[j]);
        j = j + 1;
        proof {
            assert(mesh_indices@.take(j as int) =~= mesh_indices@.take(j - 1).push(
                mesh_indices@[j - 1],
            ));
        }
    }
    proof {
        assert(mesh_vertices@.take(mesh_vertices@.len() as int) =~= mesh_vertices@);
        assert(mesh_indices@.take(mesh_indices@.len() as int) =~= mesh_indices@);
    }
    let end_index = indices.len();
    SSRObjectInfo::batched(start_vertex, start_index, end_index, texture)
}

/// How a mesh is to be drawn.
#[derive(Copy, Clone, Debug, PartialEq, Eq, Structural)]
pub enum DrawPlan {
    /// Upload the mesh into a new buffer, then draw that buffer.
    CreateBuffer,
    /// Draw the mesh's existing buffer.
    DrawBuffer(usize),
    /// Upload the mesh's changed geometry into its buffer, then draw it.
    UpdateBuffer(usize),
    /// Append the mesh to the frame's shared buffers.
    Batch,
}

/// The plan for a mesh that asks to be buffered (`buffered`), has changed
/// since its last upload (`dirty`) and already owns the buffer `buffer_id`.
pub open spec fn draw_plan_spec(buffered: bool, dirty: bool, buffer_id: Option<usize>) -> DrawPlan {
    if !buffered {
        DrawPlan::Batch
    } else {
        match buffer_id {
            None => DrawPlan::CreateBuffer,
            Some(bid) => if dirty {
                DrawPlan::UpdateBuffer(bid)
            } else {
                DrawPlan::DrawBuffer(bid)
            },
        }
    }
}

/// A mesh that does not ask to be buffered is always appended to the
/// shared batch, whatever its state; a buffer is created only for a mesh
/// that asks for one and has none yet; a mesh with a buffer updates it when
/// it has changed and otherwise draws it as it is.
pub proof fn law_draw_plan(buffered: bool, dirty: bool, buffer_id: Option<usize>)
    ensures
        !buffered ==> draw_plan_spec(buffered, dirty, buffer_id) == DrawPlan::Batch,
        (draw_plan_spec(buffered, dirty, buffer_id) == DrawPlan::Batch) <==> !buffered,
        (draw_plan_spec(buffered, dirty, buffer_id) == DrawPlan::CreateBuffer) <==> (buffered
            && buffer_id is None),
        forall|b: usize|
            (draw_plan_spec(buffered, dirty, buffer_id) == DrawPlan::UpdateBuffer(b)) <==> (
            buffered && dirty && buffer_id == Some(b)),
        forall|b: usize|
            (draw_plan_spec(buffered, dirty, buffer_id) == DrawPlan::DrawBuffer(b)) <==> (
            buffered && !dirty && buffer_id == Some(b)),
{
}

/// Decides how a mesh is to be drawn.
pub fn plan_draw(buffered: bool, dirty: bool, buffer_id: Option<usize>) -> (plan: DrawPlan)
    ensures
        plan == draw_plan_spec(buffered, dirty, buffer_id),
{
    match (buffered, dirty, buffer_id) {
        (true, _, None) => DrawPlan::CreateBuffer,
        (true, false, Some(bid)) => DrawPlan::DrawBuffer(bid),
        (true, true, Some(bid)) => DrawPlan::UpdateBuffer(bid),
        (false, _, _) => DrawPlan::Batch,
    }
}

/// One draw call of a frame, for the object drawn as instance `instance`.
#[derive(Copy, Clone, Debug, PartialEq, Eq, Structural)]
pub enum DrawCall {
    /// Draw the index range `start_index..end_index` of the shared buffers,
    /// counting vertices from `base_vertex`, with `texture` (the default
    /// texture when `None`).
    Batched {
        texture: Option<usize>,
        start_index: u32,
        end_index: u32,
        base_vertex: i32,
        instance: u32,
    },
    /// Draw the whole mesh buffer in `slot` with `texture` (the default
    /// texture when `None`).
    Buffered { slot: usize, texture: Option<usize>, instance: u32 },
}

/// Whether object `o` names a mesh buffer that does not exist, among
/// buffers whose textures are `textures`.
pub open spec fn names_missing_buffer(o: SSRObjectInfo, textures: Seq<Option<usize>>) -> bool {
    match o.bo_slot {
        Some(s) => s >= textures.len(),
        None => false,
    }
}

/// The draw call for object `o`, drawn as instance `i`.
pub open spec fn draw_call_for(o: SSRObjectInfo, i: int, textures: Seq<Option<usize>>) -> DrawCall {
    match o.bo_slot {
        None => DrawCall::Batched {
            texture: o.texture,
            start_index: o.start_index,
            end_index: o.end_index,
            base_vertex: o.start_vertice as i32,
            instance: i as u32,
        },
        Some(s) => DrawCall::Buffered { slot: s, texture: textures[s as int], instance: i as u32 },
    }
}

/// What each draw call draws: the object at position `i` is drawn as
/// instance `i`; an object without a buffer of its own draws exactly the
/// index range it recorded, counting vertices from its first vertex, with
/// its own texture; an object with a buffer draws that buffer's slot with
/// the texture of that buffer. An object names a missing buffer exactly
/// when its slot is past the buffers.
pub proof fn law_draw_call_draws_the_object(o: SSRObjectInfo, i: int, textures: Seq<Option<usize>>)
    requires
        0 <= i <= u32::MAX,
    ensures
        names_missing_buffer(o, textures) <==> (o.bo_slot matches Some(s) && s >= textures.len()),
        draw_call_for(o, i, textures) matches DrawCall::Batched {
            texture,
            start_index,
            end_index,
            base_vertex,
            instance,
        } ==> {
            &&& o.bo_slot is None
            &&& texture == o.texture
            &&& start_index == o.start_index
            &&& end_index == o.end_index
            &&& o.start_vertice <= i32::MAX ==> base_vertex == o.start_vertice
            &&& instance == i
        },
        draw_call_for(o, i, textures) matches DrawCall::Buffered { slot, texture, instance } ==> {
            &&& o.bo_slot == Some(slot)
            &&& slot < textures.len() ==> texture == textures[slot as int]
            &&& instance == i
        },
        o.bo_slot is None <==> draw_call_for(o, i, textures) is Batched,
{
}

/// The draw calls of a frame: one per object, in order, as instance number
/// its position; drawing stops before the first object that names a mesh
/// buffer that does not exist. `buffer_textures[s]` is the texture of the
/// mesh buffer in slot `s`.
pub fn plan_draw_calls(objects: &Vec<SSRObjectInfo>, buffer_textures: &Vec<Option<usize>>) -> (calls: Vec<DrawCall>)
    requires
        objects@.len() <= u32::MAX,
    ensures
        calls@.len() <= objects@.len(),
        forall|j: int| 0 <= j < calls@.len() ==> !names_missing_buffer(objects@[j], buffer_textures@),
        calls@.len() < objects@.len() ==> names_missing_buffer(
            objects@[calls@.len() as int],
            buffer_textures@,
        ),
        forall|j: int|
            0 <= j < calls@.len() ==> calls@[j] == draw_call_for(objects@[j], j, buffer_textures@),
{
    let mut calls: Vec<DrawCall> = Vec::new();
    let mut i: usize = 0;
    while i < objects.len()
        invariant_except_break
            i <= objects@.len(),
            objects@.len() <= u32::MAX,
            calls@.len() == i,
            forall|j: int| 0 <= j < i ==> !names_missing_buffer(objects@[j], buffer_textures@),
            forall|j: int|
                0 <= j < i ==> calls@[j] == draw_call_for(objects@[j], j, buffer_textures@),
        ensures
            calls@.len() <= objects@.len(),
            forall|j: int|
                0 <= j < calls@.len() ==> !names_missing_buffer(objects@[j], buffer_textures@),
            calls@.len() < objects@.len() ==> names_missing_buffer(
                objects@[calls@.len() as int],
                buffer_textures@,
            ),
            forall|j: int|
                0 <= j < calls@.len() ==> calls@[j] == draw_call_for(
                    objects@[j],
                    j,
                    buffer_textures@,
                ),
        decreases objects@.len() - i,
    {
        let obj = objects[i];
        let instance = i as u32;
        match obj.bo_slot {
            None => {
                calls.push(
                    DrawCall::Batched {
                        texture: obj.texture,
                        start_index: obj.start_index,
                        end_index: obj.end_index,
                        base_vertex: obj.start_vertice as i32,
                        instance,
                    },
                );
            },
            Some(slot) => {
                if slot >= buffer_textures.len() {
                    break;
                }
                calls.push(
                    DrawCall::Buffered { slot, texture: buffer_textures[slot], instance },
                );
            },
        }
        i = i + 1;
    }
    calls
}

/// Meshes uploaded into buffers of their own, with the object record under
/// which each is drawn. Buffers and records are added together, so the
/// record with id `i` always draws the buffer in slot `i`.
pub struct BufferedObjects<B> {
    buffers: Vec<B>,
    objects: Vec<SSRObjectInfo>,
}

impl<B> BufferedObjects<B> {
    /// The buffers, by slot.
    pub closed spec fn buffers_view(&self) -> Seq<B> {
        self.buffers@
    }

    /// The object records, by id.
    pub closed spec fn objects_view(&self) -> Seq<SSRObjectInfo> {
        self.objects@
    }

    /// One record per buffer, record `i` naming slot `i`.
    #[verifier::type_invariant]
    closed spec fn wf(&self) -> bool {
        &&& self.buffers@.len() == self.objects@.len()
        &&& forall|i: int| 0 <= i < self.objects@.len() ==> (#[trigger] self.objects@[i]).bo_slot
            == Some(i as usize)
    }

    /// No buffered mesh.
    pub fn new() -> (r: Self)
        ensures
            r.buffers_view() == Seq::<B>::empty(),
            r.objects_view() == Seq::<SSRObjectInfo>::empty(),
    {
        BufferedObjects { buffers: Vec::new(), objects: Vec::new() }
    }

    /// Adds the buffers of a mesh drawn with `texture`; returns the id of its
    /// object record, which is also the slot of its buffers.
    pub fn add(&mut self, buffer: B, texture: Option<usize>) -> (id: usize)
        ensures
            id == old(self).objects_view().len(),
            final(self).buffers_view() == old(self).buffers_view().push(buffer),
            final(self).objects_view() == old(self).objects_view().push(
                SSRObjectInfo {
                    bo_slot: Some(id),
                    texture,
                    start_index: 0,
                    end_index: 0,
                    start_vertice: 0,
                },
            ),
    {
        proof {
            use_type_invariant(&*self);
        }
        let slot = self.buffers.len();
        let info = SSRObjectInfo::buffered(slot, texture);
        let mut taken = BufferedObjects { buffers: Vec::new(), objects: Vec::new() };
        std::mem::swap(&mut taken, self);
        let BufferedObjects { mut buffers, mut objects } = taken;
        buffers.push(buffer);
        objects.push(info);
        proof {
            assert forall|i: int| 0 <= i < objects@.len() implies (#[trigger] objects@[i]).bo_slot
                == Some(i as usize) by {
                if i < objects@.len() - 1 {
                    assert(objects@[i] == old(self).objects@[i]);
                    assert(old(self).objects@[i].bo_slot == Some(i as usize));
                }
            }
        }
        *self = BufferedObjects { buffers, objects };
        slot
    }

    /// The object record with id `id`, if there is one.
    pub fn object(&self, id: usize) -> (r: Option<SSRObjectInfo>)
        ensures
            id < self.objects_view().len() ==> r == Some(self.objects_view()[id as int]),
            id >= self.objects_view().len() ==> r is None,
            r matches Some(o) ==> o.bo_slot == Some(id),
    {
        proof {
            use_type_invariant(self);
        }
        if id < self.objects.len() {
            Some(self.objects[id])
        } else {
            None
        }
    }

    /// The buffers in `slot`, if there are any, to replace in place.
    pub fn buffer_mut(&mut self, slot: usize) -> (r: Option<&mut B>)
        ensures
            final(self).objects_view() == old(self).objects_view(),
            match r {
                Some(b) => {
                    &&& slot < old(self).buffers_view().len()
                    &&& *b == old(self).buffers_view()[slot as int]
                    &&& final(self).buffers_view() == old(self).buffers_view().update(
                        slot as int,
                        *final(b),
                    )
                },
                None => {
                    &&& slot >= old(self).buffers_view().len()
                    &&& final(self).buffers_view() == old(self).buffers_view()
                },
            },
    {
        proof {
            use_type_invariant(&*self);
        }
        if slot < self.buffers.len() {
            Some(&mut self.buffers[slot])
        } else {
            None
        }
    }

    /// The buffers, by slot.
    pub fn buffers(&self) -> (r: &Vec<B>)
        ensures
            r@ == self.buffers_view(),
    {
        &self.buffers
    }

    /// The number of buffered meshes.
    pub fn len(&self) -> (n: usize)
        ensures
            n == self.objects_view().len(),
            n == self.buffers_view().len(),
    {
        proof {
            use_type_invariant(self);
        }
        self.objects.len()
    }
}

} // verus!
