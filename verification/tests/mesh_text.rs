use neo_granseal::mesh_loader::{load_mesh_groups, ObjGroup};

fn text(data: &str, r: (usize, usize)) -> &str {
    &data[r.0..r.1]
}

fn name<'a>(data: &'a str, g: &ObjGroup) -> &'a str {
    match g.name {
        Some(r) => text(data, r),
        None => "Default",
    }
}

#[test]
fn two_groups_with_global_vertex_numbers() {
    let data = "# header\ng A_Mesh\nv 1 2 3\nv 4 5 6\nv 7 8 9\nf 1 2 3\ng B_Mesh\nv 0 0 0\nv 1 1 1\nv 2 2 2\nf 4 5 6\nf 6 5 4\n";
    let groups = load_mesh_groups(data.as_bytes()).unwrap();
    assert_eq!(groups.len(), 2);
    assert_eq!(name(data, &groups[0]), "A");
    assert_eq!(name(data, &groups[1]), "B");
    let v: Vec<&str> = groups[0].vertex_lines.iter().map(|r| text(data, *r)).collect();
    assert_eq!(v, vec!["1 2 3", "4 5 6", "7 8 9"]);
    assert_eq!(groups[0].faces, vec![0, 1, 2]);
    assert_eq!(groups[1].faces, vec![0, 1, 2, 2, 1, 0]);
}

#[test]
fn group_without_suffix_is_default_and_empty_group_is_unnamed() {
    let data = "g plain\nv 1 2 3\ng ";
    let groups = load_mesh_groups(data.as_bytes()).unwrap();
    assert_eq!(groups.len(), 2);
    assert_eq!(name(data, &groups[0]), "Default");
    assert_eq!(name(data, &groups[1]), "");
    assert!(groups[1].vertex_lines.is_empty());
}

#[test]
fn crlf_lines_and_unicode_spaces() {
    let data = "g X_Mesh\r\nv 1 2 3\r\nv 1 2 3\r\nf +1\u{00A0}2\t 1\r\n";
    let groups = load_mesh_groups(data.as_bytes()).unwrap();
    assert_eq!(name(data, &groups[0]), "X");
    assert_eq!(text(data, groups[0].vertex_lines[0]), "1 2 3");
    assert_eq!(groups[0].faces, vec![0, 1, 0]);
}

#[test]
fn bad_face_words_are_refused() {
    assert!(load_mesh_groups("g A_Mesh\nv 1 2 3\nf 1 x 1\n".as_bytes()).is_none());
    assert!(load_mesh_groups("g A_Mesh\nv 1 2 3\nf 1/1 1\n".as_bytes()).is_none());
    assert!(load_mesh_groups("g A_Mesh\nv 1 2 3\nf -1\n".as_bytes()).is_none());
    assert!(load_mesh_groups("g A_Mesh\nv 1 2 3\nf 4294967296\n".as_bytes()).is_none());
}

#[test]
fn face_numbers_before_the_group_are_refused() {
    // face 0 names no vertex; in the second group, face 1 names a vertex of the first
    assert!(load_mesh_groups("g A_Mesh\nv 1 2 3\nf 0\n".as_bytes()).is_none());
    assert!(load_mesh_groups("g A_Mesh\nv 1 2 3\ng B_Mesh\nv 1 2 3\nf 1\n".as_bytes()).is_none());
}

#[test]
fn text_before_first_group_and_mid_word_marks() {
    // "g " inside a word also opens a group, as a plain split on "g " does
    let data = "v 9 9 9\ng A_Mesh\nv 1 2 3\nf 1 1 1\nv big 1\n";
    let groups = load_mesh_groups(data.as_bytes()).unwrap();
    assert_eq!(groups.len(), 2);
    assert_eq!(groups[0].faces, vec![0, 0, 0]);
    let v: Vec<&str> = groups[0].vertex_lines.iter().map(|r| text(data, *r)).collect();
    assert_eq!(v, vec!["1 2 3", "bi"]);
    assert_eq!(name(data, &groups[1]), "Default");
}

#[test]
fn no_group_marks_no_groups() {
    assert_eq!(load_mesh_groups(b"v 1 2 3\n").unwrap().len(), 0);
    assert_eq!(load_mesh_groups(b"").unwrap().len(), 0);
}

#[test]
fn reported_ranges_lie_within_the_text() {
    let data = "g A_Mesh\nv 1 2 3\r\nv 4\ng \ng B_Mesh\nv";
    let groups = load_mesh_groups(data.as_bytes()).unwrap();
    assert_eq!(groups.len(), 3);
    for g in &groups {
        if let Some((a, b)) = g.name {
            assert!(a <= b && b <= data.len());
        }
        for (a, b) in &g.vertex_lines {
            assert!(a <= b && *b <= data.len());
        }
    }
    assert_eq!(text(data, groups[0].vertex_lines[1]), "4");
}
