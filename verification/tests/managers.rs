use neo_granseal::images::white_image;
use neo_granseal::managers::{
    MaterialManager, MeshManager, ObjectManager, TextureManager,
};

#[test]
fn object_handles_start_at_zero_and_are_reused() {
    let mut objects: ObjectManager<&str> = ObjectManager::new();
    let a = objects.add_object("a");
    let b = objects.add_object("b");
    let c = objects.add_object("c");
    objects.destroy_object(b);
    assert!(objects.get_object(b).is_none());
    // the freed handle is the smallest free one, so it is handed out again
    let d = objects.add_object("d");
    assert_eq!(objects.get_object(d).map(|o| *o), Some("d"));
    assert_eq!(objects.get_object(b).map(|o| *o), Some("d"));
    assert_eq!(objects.get_object(a).map(|o| *o), Some("a"));
    assert_eq!(objects.get_object(c).map(|o| *o), Some("c"));
}

#[test]
fn object_changed_in_place_stays_changed() {
    let mut objects: ObjectManager<u32> = ObjectManager::new();
    let h = objects.add_object(5);
    if let Some(o) = objects.get_object(h) {
        *o += 10;
    }
    assert_eq!(objects.get_object(h).map(|o| *o), Some(15));
    objects.update_object(h, 1);
    assert_eq!(objects.get_object(h).map(|o| *o), Some(1));
}

#[test]
fn add_after_destroy_of_lowest_returns_lowest() {
    let mut objects: ObjectManager<u8> = ObjectManager::new();
    let first = objects.add_object(1);
    let _second = objects.add_object(2);
    objects.destroy_object(first);
    let third = objects.add_object(3);
    // `third` took handle 0 again: the old copy of `first` now names it
    assert_eq!(objects.get_object(first).map(|o| *o), Some(3));
    assert_eq!(objects.get_object(third).map(|o| *o), Some(3));
}

#[test]
fn material_destroy_reports_existence() {
    let mut materials: MaterialManager<i32> = MaterialManager::new();
    let h = materials.add_material(7);
    assert!(materials.destroy_material(&h));
    assert!(!materials.destroy_material(&h));
    materials.update_material(&h, 9);
    assert!(materials.destroy_material(&h));
}

#[test]
fn mesh_destroy_hands_back_buffers() {
    let mut meshes: MeshManager<String> = MeshManager::new();
    let h = meshes.add_mesh("first".to_string());
    assert_eq!(meshes.update_mesh(&h, "second".to_string()), Some("first".to_string()));
    assert_eq!(meshes.destroy_mesh(&h), Some("second".to_string()));
    assert_eq!(meshes.destroy_mesh(&h), None);
    assert_eq!(meshes.update_mesh(&h, "third".to_string()), None);
}

#[test]
fn texture_add_reports_nothing_replaced() {
    let mut textures: TextureManager<u64> = TextureManager::new();
    assert_eq!(textures.add_texture(Some(white_image(1, 1)), |img| img.pixels.len() as u64), None);
    assert_eq!(textures.add_texture(Some(white_image(2, 1)), |img| img.pixels.len() as u64), None);
    assert_eq!(textures.len(), 2);
    // an image that could not be decoded adds nothing
    assert_eq!(textures.add_texture(None, |img| img.pixels.len() as u64), None);
    assert_eq!(textures.len(), 2);
}

#[test]
fn managers_count_their_resources() {
    let mut objects: ObjectManager<u8> = ObjectManager::new();
    assert_eq!(objects.len(), 0);
    let h = objects.add_object(1);
    objects.add_object(2);
    assert_eq!(objects.len(), 2);
    objects.destroy_object(h);
    assert_eq!(objects.len(), 1);
}
