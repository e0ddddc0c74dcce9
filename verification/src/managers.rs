//! Handle-based resource managers. Every manager keeps its resources in a
//! `HandleMap`, which hands out the smallest handle that is not in use.
use crate::images::{decode_image, decoded_rgba8, DecodedImage};
use std::collections::HashMap;
use vstd::prelude::*;

verus! {

broadcast use vstd::std_specs::hash::group_hash_axioms;

/// `h` is the smallest handle that `used` does not hold.
pub open spec fn is_first_free(used: Set<u32>, h: u32) -> bool {
    &&& !used.contains(h)
    &&& forall|i: u32| i < h ==> used.contains(i)
}

/// The smallest handle that `used` does not hold (meaningful when `used`
/// leaves some handle free).
pub open spec fn first_free(used: Set<u32>) -> u32 {
    choose|h: u32| is_first_free(used, h)
}

/// The set of handles below `n`.
pub open spec fn handles_below(n: int) -> Set<u32> {
    Set::new(|i: u32| i < n)
}

/// There are exactly `n` handles below `n`.
pub proof fn lemma_handles_below_len(n: int)
    requires
        0 <= n <= u32::MAX + 1,
    ensures
        handles_below(n).finite(),
        handles_below(n).len() == n,
    decreases n,
{
    if n == 0 {
        assert(handles_below(0) =~= Set::<u32>::empty());
    } else {
        lemma_handles_below_len(n - 1);
        assert(handles_below(n) =~= handles_below(n - 1).insert((n - 1) as u32));
    }
}

/// A finite set of handles that holds every handle below `n` has at least
/// `n` members.
pub proof fn lemma_prefix_bounded(used: Set<u32>, n: int)
    requires
        used.finite(),
        0 <= n <= u32::MAX + 1,
        forall|i: u32| i < n ==> used.contains(i),
    ensures
        n <= used.len(),
{
    lemma_handles_below_len(n);
    assert(handles_below(n).subset_of(used));
    vstd::set_lib::lemma_len_subset(handles_below(n), used);
}

/// The first free handle is unique: two handles that are both the smallest
/// free one are the same handle.
pub proof fn law_first_free_unique(used: Set<u32>, a: u32, b: u32)
    requires
        is_first_free(used, a),
        is_first_free(used, b),
    ensures
        a == b,
{
    if a < b {
        assert(used.contains(a));
    } else if b < a {
        assert(used.contains(b));
    }
}

/// While fewer than 2^32 handles are in use, a smallest free handle exists.
pub proof fn law_first_free_exists(used: Set<u32>)
    requires
        used.finite(),
        used.len() <= u32::MAX,
    ensures
        is_first_free(used, first_free(used)),
{
    if forall|h: u32| used.contains(h) {
        assert forall|i: u32| i < u32::MAX + 1 implies used.contains(i) by {}
        lemma_prefix_bounded(used, u32::MAX + 1);
        assert(false);
    } else {
        let g = choose|h: u32| !used.contains(h);
        lemma_least_free(used, g);
    }
}

/// Below any free handle there is a smallest free handle.
proof fn lemma_least_free(used: Set<u32>, g: u32)
    requires
        !used.contains(g),
    ensures
        exists|h: u32| is_first_free(used, h) && h <= g,
    decreases g,
{
    if forall|i: u32| i < g ==> used.contains(i) {
        assert(is_first_free(used, g));
    } else {
        let j = choose|i: u32| i < g && !used.contains(i);
        lemma_least_free(used, j);
    }
}

/// Destroying a resource makes its handle available again: the next handle
/// handed out is never higher than the one just released.
pub proof fn law_release_reuses_handle(used: Set<u32>, h: u32)
    requires
        used.finite(),
        used.contains(h),
    ensures
        is_first_free(used.remove(h), first_free(used.remove(h))),
        first_free(used.remove(h)) <= h,
{
    lemma_least_free(used.remove(h), h);
    let g = choose|g: u32| is_first_free(used.remove(h), g) && g <= h;
    law_first_free_unique(used.remove(h), g, first_free(used.remove(h)));
}

/// Adding a resource and destroying it again leaves the contents as they
/// were, and the next add hands out the same handle.
pub proof fn law_add_then_destroy_restores<V>(m: Map<u32, V>, v: V)
    requires
        m.dom().finite(),
        m.dom().len() <= u32::MAX,
    ensures
        m.insert(first_free(m.dom()), v).remove(first_free(m.dom())) == m,
        first_free(m.insert(first_free(m.dom()), v).remove(first_free(m.dom())).dom())
            == first_free(m.dom()),
{
    law_first_free_exists(m.dom());
    let h = first_free(m.dom());
    assert(m.insert(h, v).remove(h) =~= m);
}

/// Resources stored under the handles of a `HandleMap`.
pub struct HandleMap<V> {
    entries: HashMap<u32, V>,
}

impl<V> View for HandleMap<V> {
    type V = Map<u32, V>;

    closed spec fn view(&self) -> Map<u32, V> {
        self.entries@
    }
}

/// `HashMap::get_mut`: a mutable reference to the value under `k`, if any;
/// writes through it land in the map under `k`, and nothing else changes.
#[verifier::external_body]
fn hash_map_get_mut<'a, V>(m: &'a mut HashMap<u32, V>, k: u32) -> (r: Option<&'a mut V>)
    ensures
        match r {
            Some(v) => {
                &&& old(m)@.contains_key(k)
                &&& *v == old(m)@[k]
                &&& final(m)@ == old(m)@.insert(k, *final(v))
            },
            None => {
                &&& !old(m)@.contains_key(k)
                &&& final(m)@ == old(m)@
            },
        },
{
    m.get_mut(&k)
}

impl<V> HandleMap<V> {
    /// An empty map.
    pub fn new() -> (r: Self)
        ensures
            r@ == Map::<u32, V>::empty(),
    {
        HandleMap { entries: HashMap::new() }
    }

    /// The number of resources held.
    pub fn len(&self) -> (n: usize)
        ensures
            n == self@.len(),
    {
        proof {
            broadcast use vstd::std_specs::hash::axiom_spec_hash_map_len;
        }
        self.entries.len()
    }

    /// The smallest handle that is not in use.
    pub fn new_handle(&self) -> (h: u32)
        requires
            self@.dom().len() <= u32::MAX,
        ensures
            is_first_free(self@.dom(), h),
            h == first_free(self@.dom()),
    {
        let mut handle: u32 = 0;
        while self.entries.contains_key(&handle)
            invariant
                self@.dom().finite(),
                self@.dom().len() <= u32::MAX,
                forall|i: u32| i < handle ==> self@.dom().contains(i),
            decreases u32::MAX - handle,
        {
            proof {
                assert forall|i: u32| i < handle + 1 implies self@.dom().contains(i) by {}
                lemma_prefix_bounded(self@.dom(), handle + 1);
            }
            handle += 1;
        }
        proof {
            law_first_free_exists(self@.dom());
            law_first_free_unique(self@.dom(), handle, first_free(self@.dom()));
        }
        handle
    }

    /// Stores `value` under the smallest free handle and returns that handle.
    pub fn add(&mut self, value: V) -> (h: u32)
        requires
            old(self)@.dom().len() <= u32::MAX,
        ensures
            is_first_free(old(self)@.dom(), h),
            h == first_free(old(self)@.dom()),
            final(self)@ == old(self)@.insert(h, value),
    {
        let h = self.new_handle();
        self.entries.insert(h, value);
        h
    }

    /// Stores `value` under `h`, replacing and returning what was there.
    pub fn insert(&mut self, h: u32, value: V) -> (previous: Option<V>)
        ensures
            final(self)@ == old(self)@.insert(h, value),
            match previous {
                Some(p) => old(self)@.contains_key(h) && p == old(self)@[h],
                None => !old(self)@.contains_key(h),
            },
    {
        self.entries.insert(h, value)
    }

    /// Takes the resource under `h` out of the map.
    pub fn remove(&mut self, h: u32) -> (removed: Option<V>)
        ensures
            final(self)@ == old(self)@.remove(h),
            match removed {
                Some(p) => old(self)@.contains_key(h) && p == old(self)@[h],
                None => !old(self)@.contains_key(h),
            },
    {
        self.entries.remove(&h)
    }

    /// The resource under `h`, if any.
    pub fn get(&self, h: u32) -> (r: Option<&V>)
        ensures
            match r {
                Some(p) => self@.contains_key(h) && *p == self@[h],
                None => !self@.contains_key(h),
            },
    {
        self.entries.get(&h)
    }

    /// The resource under `h`, if any, to change in place.
    pub fn get_mut(&mut self, h: u32) -> (r: Option<&mut V>)
        ensures
            match r {
                Some(p) => {
                    &&& old(self)@.contains_key(h)
                    &&& *p == old(self)@[h]
                    &&& final(self)@ == old(self)@.insert(h, *final(p))
                },
                None => !old(self)@.contains_key(h) && final(self)@ == old(self)@,
            },
    {
        hash_map_get_mut(&mut self.entries, h)
    }
}


/// Handle of a mesh held by a `MeshManager`.
#[derive(Clone, Copy)]
pub struct MeshHandle {
    handle: u32,
}

impl View for MeshHandle {
    type V = u32;

    closed spec fn view(&self) -> u32 {
        self.handle
    }
}

/// Handle of a material held by a `MaterialManager`.
#[derive(Clone, Copy)]
pub struct MaterialHandle {
    handle: u32,
}

impl View for MaterialHandle {
    type V = u32;

    closed spec fn view(&self) -> u32 {
        self.handle
    }
}

/// Handle of a texture held by a `TextureManager`.
#[derive(Clone)]
pub struct TextureHandle {
    handle: u32,
}

impl View for TextureHandle {
    type V = u32;

    closed spec fn view(&self) -> u32 {
        self.handle
    }
}

/// Handle of an object held by an `ObjectManager`.
#[derive(Clone, Copy)]
pub struct ObjectHandle {
    handle: u32,
}

impl View for ObjectHandle {
    type V = u32;

    closed spec fn view(&self) -> u32 {
        self.handle
    }
}

/// The GPU buffers of meshes, by handle.
pub struct MeshManager<B> {
    meshes: HandleMap<B>,
}

impl<B> View for MeshManager<B> {
    type V = Map<u32, B>;

    closed spec fn view(&self) -> Map<u32, B> {
        self.meshes@
    }
}

impl<B> MeshManager<B> {
    /// The number of meshes held; a new one can be added while this is at
    /// most `u32::MAX`.
    pub fn len(&self) -> (n: usize)
        ensures
            n == self@.len(),
    {
        self.meshes.len()
    }

    /// A manager that holds no mesh.
    pub fn new() -> (r: Self)
        ensures
            r@ == Map::<u32, B>::empty(),
    {
        MeshManager { meshes: HandleMap::new() }
    }

    /// Stores the buffers of a mesh under the smallest free handle.
    pub fn add_mesh(&mut self, buffer: B) -> (h: MeshHandle)
        requires
            old(self)@.dom().len() <= u32::MAX,
        ensures
            h@ == first_free(old(self)@.dom()),
            is_first_free(old(self)@.dom(), h@),
            final(self)@ == old(self)@.insert(h@, buffer),
    {
        let handle = self.meshes.add(buffer);
        MeshHandle { handle }
    }

    /// Takes the buffers under `handle` out of the manager; `None` when the
    /// handle holds nothing.
    pub fn destroy_mesh(&mut self, handle: &MeshHandle) -> (removed: Option<B>)
        ensures
            final(self)@ == old(self)@.remove(handle@),
            match removed {
                Some(b) => old(self)@.contains_key(handle@) && b == old(self)@[handle@],
                None => !old(self)@.contains_key(handle@),
            },
    {
        self.meshes.remove(handle.handle)
    }

    /// Stores new buffers under `handle` and returns the buffers they replace.
    pub fn update_mesh(&mut self, handle: &MeshHandle, buffer: B) -> (previous: Option<B>)
        ensures
            final(self)@ == old(self)@.insert(handle@, buffer),
            match previous {
                Some(b) => old(self)@.contains_key(handle@) && b == old(self)@[handle@],
                None => !old(self)@.contains_key(handle@),
            },
    {
        self.meshes.insert(handle.handle, buffer)
    }
}

/// Materials, by handle.
pub struct MaterialManager<M> {
    materials: HandleMap<M>,
}

impl<M> View for MaterialManager<M> {
    type V = Map<u32, M>;

    closed spec fn view(&self) -> Map<u32, M> {
        self.materials@
    }
}

impl<M> MaterialManager<M> {
    /// The number of materials held; a new one can be added while this is at
    /// most `u32::MAX`.
    pub fn len(&self) -> (n: usize)
        ensures
            n == self@.len(),
    {
        self.materials.len()
    }

    /// A manager that holds no material.
    pub fn new() -> (r: Self)
        ensures
            r@ == Map::<u32, M>::empty(),
    {
        MaterialManager { materials: HandleMap::new() }
    }

    /// Stores a material under the smallest free handle.
    pub fn add_material(&mut self, material: M) -> (h: MaterialHandle)
        requires
            old(self)@.dom().len() <= u32::MAX,
        ensures
            h@ == first_free(old(self)@.dom()),
            is_first_free(old(self)@.dom(), h@),
            final(self)@ == old(self)@.insert(h@, material),
    {
        let handle = self.materials.add(material);
        MaterialHandle { handle }
    }

    /// Removes the material under `handle`; true when there was one.
    pub fn destroy_material(&mut self, handle: &MaterialHandle) -> (existed: bool)
        ensures
            final(self)@ == old(self)@.remove(handle@),
            existed == old(self)@.contains_key(handle@),
    {
        let material = self.materials.remove(handle.handle);
        match material {
            Some(_mat) => true,
            None => false,
        }
    }

    /// Stores `material` under `handle`, replacing what was there.
    pub fn update_material(&mut self, handle: &MaterialHandle, material: M)
        ensures
            final(self)@ == old(self)@.insert(handle@, material),
    {
        self.materials.insert(handle.handle, material);
    }
}

/// GPU textures, by handle.
pub struct TextureManager<T> {
    textures: HandleMap<T>,
}

impl<T> View for TextureManager<T> {
    type V = Map<u32, T>;

    closed spec fn view(&self) -> Map<u32, T> {
        self.textures@
    }
}

impl<T> TextureManager<T> {
    /// The number of textures held; a new one can be added while this is at
    /// most `u32::MAX`.
    pub fn len(&self) -> (n: usize)
        ensures
            n == self@.len(),
    {
        self.textures.len()
    }

    /// A manager that holds no texture.
    pub fn new() -> (r: Self)
        ensures
            r@ == Map::<u32, T>::empty(),
    {
        TextureManager { textures: HandleMap::new() }
    }

    /// Makes a texture from a decoded image and stores it under the smallest
    /// free handle; `upload` turns the pixels into the stored texture. When
    /// the image could not be decoded (`None`) nothing is made or stored.
    /// The result is what the handle held before, which is always nothing:
    /// the handle is not reported back.
    pub fn add_texture<F: FnOnce(DecodedImage) -> T>(&mut self, image: Option<DecodedImage>, upload: F) -> (previous: Option<T>)
        requires
            old(self)@.dom().len() <= u32::MAX,
            image matches Some(img) ==> upload.requires((img,)),
        ensures
            previous is None,
            match image {
                None => final(self)@ == old(self)@,
                Some(img) => {
                    let h = first_free(old(self)@.dom());
                    &&& final(self)@ == old(self)@.insert(h, final(self)@[h])
                    &&& upload.ensures((img,), final(self)@[h])
                },
            },
    {
        match image {
            None => None,
            Some(img) => {
                let texture = upload(img);
                let handle = self.textures.new_handle();
                self.textures.insert(handle, texture)
            },
        }
    }

    /// Decodes encoded image bytes and, when they are an image, makes a
    /// texture of it with `upload` and stores it under the smallest free
    /// handle; bytes that are no image leave the manager as it was.
    pub fn add_texture_data<F: FnOnce(DecodedImage) -> T>(&mut self, data: &[u8], upload: F) -> (previous: Option<T>)
        requires
            old(self)@.dom().len() <= u32::MAX,
            forall|img: DecodedImage| upload.requires((img,)),
        ensures
            previous is None,
            match decoded_rgba8(data@) {
                None => final(self)@ == old(self)@,
                Some(v) => {
                    let h = first_free(old(self)@.dom());
                    &&& final(self)@ == old(self)@.insert(h, final(self)@[h])
                    &&& exists|img: DecodedImage|
                        img@ == v && #[trigger] upload.ensures((img,), final(self)@[h])
                },
            },
    {
        let image = match decode_image(data) {
            Ok(img) => Some(img),
            Err(_) => None,
        };
        self.add_texture(image, upload)
    }

    /// Takes the texture under `handle` out of the manager; `None` when the
    /// handle holds nothing.
    pub fn destroy_texture(&mut self, handle: &TextureHandle) -> (removed: Option<T>)
        ensures
            final(self)@ == old(self)@.remove(handle@),
            match removed {
                Some(t) => old(self)@.contains_key(handle@) && t == old(self)@[handle@],
                None => !old(self)@.contains_key(handle@),
            },
    {
        self.textures.remove(handle.handle)
    }

    /// Makes a texture from a decoded image with `upload` and stores it under
    /// `handle`, returning the texture it replaces; when the image could not
    /// be decoded (`None`) nothing is made and the manager is left as it was.
    pub fn update_texture<F: FnOnce(DecodedImage) -> T>(&mut self, handle: &TextureHandle, image: Option<DecodedImage>, upload: F) -> (previous: Option<T>)
        requires
            image matches Some(img) ==> upload.requires((img,)),
        ensures
            match image {
                None => final(self)@ == old(self)@ && previous is None,
                Some(img) => {
                    &&& final(self)@ == old(self)@.insert(handle@, final(self)@[handle@])
                    &&& upload.ensures((img,), final(self)@[handle@])
                    &&& match previous {
                        Some(t) => old(self)@.contains_key(handle@) && t == old(self)@[handle@],
                        None => !old(self)@.contains_key(handle@),
                    }
                },
            },
    {
        match image {
            None => None,
            Some(img) => {
                let texture = upload(img);
                self.textures.insert(handle.handle, texture)
            },
        }
    }

    /// Decodes encoded image bytes and, when they are an image, makes a
    /// texture of it with `upload` and stores it under `handle`, returning
    /// the texture it replaces; bytes that are no image leave the manager as
    /// it was.
    pub fn update_texture_data<F: FnOnce(DecodedImage) -> T>(&mut self, handle: &TextureHandle, data: &[u8], upload: F) -> (previous: Option<T>)
        requires
            forall|img: DecodedImage| upload.requires((img,)),
        ensures
            match decoded_rgba8(data@) {
                None => final(self)@ == old(self)@ && previous is None,
                Some(v) => {
                    &&& final(self)@ == old(self)@.insert(handle@, final(self)@[handle@])
                    &&& exists|img: DecodedImage|
                        img@ == v && #[trigger] upload.ensures((img,), final(self)@[handle@])
                    &&& match previous {
                        Some(t) => old(self)@.contains_key(handle@) && t == old(self)@[handle@],
                        None => !old(self)@.contains_key(handle@),
                    }
                },
            },
    {
        let image = match decode_image(data) {
            Ok(img) => Some(img),
            Err(_) => None,
        };
        self.update_texture(handle, image, upload)
    }

    /// The texture under `handle`, if any.
    pub fn get_texture(&self, handle: TextureHandle) -> (r: Option<&T>)
        ensures
            match r {
                Some(t) => self@.contains_key(handle@) && *t == self@[handle@],
                None => !self@.contains_key(handle@),
            },
    {
        self.textures.get(handle.handle)
    }
}

/// Scene objects, by handle.
pub struct ObjectManager<O> {
    objects: HandleMap<O>,
}

impl<O> View for ObjectManager<O> {
    type V = Map<u32, O>;

    closed spec fn view(&self) -> Map<u32, O> {
        self.objects@
    }
}

impl<O> ObjectManager<O> {
    /// The number of objects held; a new one can be added while this is at
    /// most `u32::MAX`.
    pub fn len(&self) -> (n: usize)
        ensures
            n == self@.len(),
    {
        self.objects.len()
    }

    /// A manager that holds no object.
    pub fn new() -> (r: Self)
        ensures
            r@ == Map::<u32, O>::empty(),
    {
        ObjectManager { objects: HandleMap::new() }
    }

    /// Stores an object under the smallest free handle.
    pub fn add_object(&mut self, object: O) -> (h: ObjectHandle)
        requires
            old(self)@.dom().len() <= u32::MAX,
        ensures
            h@ == first_free(old(self)@.dom()),
            is_first_free(old(self)@.dom(), h@),
            final(self)@ == old(self)@.insert(h@, object),
    {
        let handle = self.objects.add(object);
        ObjectHandle { handle }
    }

    /// Stores `object` under `handle`, replacing what was there.
    pub fn update_object(&mut self, handle: ObjectHandle, object: O)
        ensures
            final(self)@ == old(self)@.insert(handle@, object),
    {
        self.objects.insert(handle.handle, object);
    }

    /// Removes the object under `handle`, if any.
    pub fn destroy_object(&mut self, handle: ObjectHandle)
        ensures
            final(self)@ == old(self)@.remove(handle@),
    {
        self.objects.remove(handle.handle);
    }

    /// The object under `handle`, if any, to change in place.
    pub fn get_object(&mut self, handle: ObjectHandle) -> (r: Option<&mut O>)
        ensures
            match r {
                Some(o) => {
                    &&& old(self)@.contains_key(handle@)
                    &&& *o == old(self)@[handle@]
                    &&& final(self)@ == old(self)@.insert(handle@, *final(o))
                },
                None => !old(self)@.contains_key(handle@) && final(self)@ == old(self)@,
            },
    {
        self.objects.get_mut(handle.handle)
    }
}

} // verus!
