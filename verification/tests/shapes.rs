use knotted_portal::shapes::{
    blade_faces, box_faces, fish_faces, icosahedron_faces, mountain_faces, pyramid_faces, quad_faces,
    ring_segment_faces, tent_faces, tetrahedron_faces, volcano_faces, Face,
};

/// No directed edge twice.
fn oriented(faces: &[Face], n: usize) -> bool {
    let mut count = vec![vec![0u32; n]; n];
    for f in faces {
        for (u, v) in [(f.a, f.b), (f.b, f.c), (f.c, f.a)] {
            count[u][v] += 1;
        }
    }
    (0..n).all(|u| (0..n).all(|v| count[u][v] <= 1))
}

/// Each directed edge once, and its reverse once too.
fn closed(faces: &[Face], n: usize) -> bool {
    let mut count = vec![vec![0u32; n]; n];
    for f in faces {
        for (u, v) in [(f.a, f.b), (f.b, f.c), (f.c, f.a)] {
            count[u][v] += 1;
        }
    }
    (0..n).all(|u| (0..n).all(|v| count[u][v] <= 1 && count[u][v] == count[v][u]))
}

#[test]
fn pyramid_mesh_is_closed() {
    let faces = pyramid_faces();
    assert_eq!(faces.len(), 6);
    assert_eq!(faces[0], Face { a: 0, b: 1, c: 4 });
    assert_eq!(faces[5], Face { a: 0, b: 3, c: 2 });
    assert!(closed(&faces, 5));
}

#[test]
fn icosahedron_mesh_is_closed() {
    let faces = icosahedron_faces();
    assert_eq!(faces.len(), 20);
    // ul, ur, fu
    assert_eq!(faces[0], Face { a: 2, b: 0, c: 8 });
    // bd, dr, rb
    assert_eq!(faces[19], Face { a: 11, b: 1, c: 6 });
    assert!(closed(&faces, 12));
    // every corner touches five faces
    for v in 0..12 {
        assert_eq!(faces.iter().filter(|f| f.a == v || f.b == v || f.c == v).count(), 5);
    }
}

#[test]
fn box_mesh_is_closed() {
    let faces = box_faces();
    assert_eq!(faces.len(), 12);
    assert_eq!(faces[0], Face { a: 1, b: 0, c: 2 });
    assert!(closed(&faces, 8));
}

fn f(a: usize, b: usize, c: usize) -> Face {
    Face { a, b, c }
}

#[test]
fn sky_tetrahedron_is_closed() {
    let faces = tetrahedron_faces();
    assert_eq!(faces, vec![f(2, 1, 0), f(0, 1, 3), f(3, 2, 0), f(1, 2, 3)]);
    assert!(closed(&faces, 4));
}

#[test]
fn open_meshes_are_consistently_oriented() {
    let quad = quad_faces();
    assert_eq!(quad, vec![f(0, 1, 2), f(2, 3, 0)]);
    assert!(oriented(&quad, 4) && !closed(&quad, 4));
    let mountain = mountain_faces();
    assert_eq!(mountain.len(), 10);
    assert_eq!(mountain[0], f(0, 4, 8));
    assert_eq!(mountain[9], f(0, 3, 2));
    assert!(oriented(&mountain, 9) && !closed(&mountain, 9));
    let volcano = volcano_faces();
    assert_eq!(volcano.len(), 10);
    assert_eq!(volcano[8], f(4, 5, 6));
    assert!(oriented(&volcano, 8));
    let tent = tent_faces();
    assert_eq!(tent, vec![f(0, 1, 5), f(0, 5, 4), f(3, 4, 5), f(3, 5, 2), f(0, 4, 3), f(1, 2, 5)]);
    assert!(oriented(&tent, 6));
    let blade = blade_faces();
    assert_eq!(blade, vec![f(0, 1, 2), f(0, 2, 3)]);
    assert!(oriented(&blade, 4));
}

#[test]
fn fish_body_is_closed_and_fin_oriented() {
    let faces = fish_faces();
    assert_eq!(faces.len(), 9);
    assert_eq!(faces[8], f(1, 7, 6));
    assert!(closed(&faces[..8], 6));
    assert!(oriented(&faces, 8));
    assert!(!closed(&faces, 8));
}

#[test]
fn ring_segment_has_two_sides() {
    let faces = ring_segment_faces();
    assert_eq!(faces, vec![f(0, 1, 2), f(2, 1, 3), f(0, 2, 1), f(2, 3, 1)]);
    assert!(oriented(&faces[..2], 4));
    assert!(!oriented(&faces, 4));
}
