use neo_granseal::shape_pipeline::{
    plan_draw, plan_draw_calls, BufferedObjects, DrawCall, DrawPlan, SSRObjectInfo,
};

#[test]
fn draw_plan_for_each_mesh_state() {
    assert_eq!(plan_draw(false, true, Some(3)), DrawPlan::Batch);
    assert_eq!(plan_draw(true, false, None), DrawPlan::CreateBuffer);
    assert_eq!(plan_draw(true, true, None), DrawPlan::CreateBuffer);
    assert_eq!(plan_draw(true, false, Some(2)), DrawPlan::DrawBuffer(2));
    assert_eq!(plan_draw(true, true, Some(2)), DrawPlan::UpdateBuffer(2));
}

#[test]
fn batched_record_holds_ranges() {
    let info = SSRObjectInfo::batched(10, 30, 36, Some(1));
    assert_eq!(info.bo_slot, None);
    assert_eq!(info.start_vertice, 10);
    assert_eq!(info.start_index, 30);
    assert_eq!(info.end_index, 36);
    assert_eq!(info.texture, Some(1));
    let wrapped = SSRObjectInfo::batched(1usize << 32, 0, 5, None);
    assert_eq!(wrapped.start_vertice, 0);
}

#[test]
fn buffered_record_names_slot() {
    let info = SSRObjectInfo::buffered(4, None);
    assert_eq!(info.bo_slot, Some(4));
    assert_eq!(info.start_index, 0);
    assert_eq!(info.end_index, 0);
    assert_eq!(info.start_vertice, 0);
}

#[test]
fn draw_calls_stop_at_missing_buffer() {
    let objects = vec![
        SSRObjectInfo::batched(0, 0, 6, None),
        SSRObjectInfo::buffered(1, None),
        SSRObjectInfo::buffered(5, None),
        SSRObjectInfo::batched(4, 6, 12, Some(2)),
    ];
    let textures = vec![None, Some(3)];
    let calls = plan_draw_calls(&objects, &textures);
    assert_eq!(
        calls,
        vec![
            DrawCall::Batched {
                texture: None,
                start_index: 0,
                end_index: 6,
                base_vertex: 0,
                instance: 0
            },
            DrawCall::Buffered { slot: 1, texture: Some(3), instance: 1 },
        ]
    );
}

#[test]
fn draw_calls_for_all_present_objects() {
    let objects = vec![
        SSRObjectInfo::batched(4, 6, 12, Some(2)),
        SSRObjectInfo::buffered(0, None),
    ];
    let calls = plan_draw_calls(&objects, &vec![Some(9)]);
    assert_eq!(calls.len(), 2);
    assert_eq!(
        calls[0],
        DrawCall::Batched { texture: Some(2), start_index: 6, end_index: 12, base_vertex: 4, instance: 0 }
    );
    assert_eq!(calls[1], DrawCall::Buffered { slot: 0, texture: Some(9), instance: 1 });
}

#[test]
fn buffered_ids_name_their_own_slots() {
    let mut objs: BufferedObjects<&str> = BufferedObjects::new();
    assert_eq!(objs.add("a", None), 0);
    assert_eq!(objs.add("b", Some(3)), 1);
    assert_eq!(objs.len(), 2);
    let rec = objs.object(1).unwrap();
    assert_eq!(rec.bo_slot, Some(1));
    assert_eq!(rec.texture, Some(3));
    assert!(objs.object(2).is_none());
    if let Some(b) = objs.buffer_mut(0) {
        *b = "c";
    }
    assert!(objs.buffer_mut(5).is_none());
    assert_eq!(objs.buffers(), &vec!["c", "b"]);
}

#[test]
fn batched_mesh_is_appended_and_its_range_recorded() {
    let mut vertices: Vec<f32> = vec![0.0, 1.0];
    let mut indices: Vec<u32> = vec![0, 1, 0];
    let info = neo_granseal::shape_pipeline::append_batched(
        &mut vertices,
        &mut indices,
        &[2.0, 3.0, 4.0],
        &[0, 1, 2, 2, 1],
        Some(4),
    );
    assert_eq!(vertices, vec![0.0, 1.0, 2.0, 3.0, 4.0]);
    assert_eq!(indices, vec![0, 1, 0, 0, 1, 2, 2, 1]);
    assert_eq!(info.bo_slot, None);
    assert_eq!(info.texture, Some(4));
    assert_eq!(info.start_vertice, 2);
    assert_eq!(info.start_index, 3);
    assert_eq!(info.end_index, 8);
}
