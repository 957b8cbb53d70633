use khawrizm::taco::{
    BoundingBox2D, BoundingBox3D, CellCoord, CellCoord3D, LocalityType, TacoDependency,
    TacoSpatialIndex,
};

#[test]
fn test_taco_locality() {
    let source_box = BoundingBox2D::new(CellCoord { col: 0, row: 0 }, CellCoord { col: 0, row: 10 });
    let target_box = BoundingBox2D::new(CellCoord { col: 1, row: 0 }, CellCoord { col: 1, row: 10 });

    // 1. RR: Slide next to each other
    let rr_dep = TacoDependency::new(source_box, target_box, LocalityType::RR { col_offset: 1, row_offset: 0 });
    let res = rr_dep.resolve_dependencies(CellCoord { col: 0, row: 5 }).unwrap();
    assert_eq!(res, vec![CellCoord { col: 1, row: 5 }]);

    // 2. RF: Fixed target cell
    let rf_dep = TacoDependency::new(source_box, target_box, LocalityType::RF { target_col: 9, target_row: 9 });
    let res_rf = rf_dep.resolve_dependencies(CellCoord { col: 0, row: 2 }).unwrap();
    assert_eq!(res_rf, vec![CellCoord { col: 9, row: 9 }]);

    // 3. FF: Fixed range
    let ff_dep = TacoDependency::new(source_box, target_box, LocalityType::FF);
    let res_ff = ff_dep.resolve_dependencies(CellCoord { col: 0, row: 0 }).unwrap();
    assert_eq!(res_ff.len(), 11); // Target range size is 11 cells

    // 4. FR: Fixed source, target slides
    let fr_dep = TacoDependency::new(source_box, target_box, LocalityType::FR { source_col: 0, source_row: 0 });
    let res_fr = fr_dep.resolve_dependencies(CellCoord { col: 0, row: 0 }).unwrap();
    assert_eq!(res_fr.len(), 11);
}

#[test]
fn test_spatial_index() {
    let mut index = TacoSpatialIndex::default();
    let source_box = BoundingBox2D::new(CellCoord { col: 0, row: 0 }, CellCoord { col: 0, row: 5 });
    let target_box = BoundingBox2D::new(CellCoord { col: 1, row: 0 }, CellCoord { col: 1, row: 5 });
    let dep = TacoDependency::new(source_box, target_box, LocalityType::RR { col_offset: 1, row_offset: 0 });
    index.insert(dep);

    let query_res = index.query(CellCoord { col: 0, row: 3 });
    assert_eq!(query_res, vec![CellCoord { col: 1, row: 3 }]);
}

#[test]
fn test_3d_spatial_bounds() {
    let c1 = CellCoord3D { x: 0, y: 0, z: 0 };
    let c2 = CellCoord3D { x: 10, y: 10, z: 10 };
    let bbox = BoundingBox3D::new(c1, c2);

    let p_inside = CellCoord3D { x: 5, y: 5, z: 5 };
    let p_outside = CellCoord3D { x: 15, y: 5, z: 5 };

    assert!(bbox.contains(p_inside));
    assert!(!bbox.contains(p_outside));
}

fn cc(col: u32, row: u32) -> CellCoord {
    CellCoord { col, row }
}

#[test]
fn box_new_orders_corners() {
    let b = BoundingBox2D::new(cc(7, 2), cc(3, 9));
    assert_eq!(b, BoundingBox2D { min_col: 3, min_row: 2, max_col: 7, max_row: 9 });
    assert_eq!(b, BoundingBox2D::new(cc(3, 9), cc(7, 2)));
    assert!(b.contains(cc(7, 2)) && b.contains(cc(3, 9)));
    assert!(b.contains(cc(3, 2)) && b.contains(cc(7, 9)));
    assert!(!b.contains(cc(2, 5)) && !b.contains(cc(8, 5)));
    assert!(!b.contains(cc(5, 1)) && !b.contains(cc(5, 10)));
}

#[test]
fn box3d_new_orders_corners() {
    let b = BoundingBox3D::new(CellCoord3D { x: 4, y: -1, z: 9 }, CellCoord3D { x: -2, y: 6, z: 0 });
    assert_eq!(b, BoundingBox3D { min_x: -2, min_y: -1, min_z: 0, max_x: 4, max_y: 6, max_z: 9 });
    assert!(b.contains(CellCoord3D { x: -2, y: -1, z: 0 }));
    assert!(b.contains(CellCoord3D { x: 4, y: 6, z: 9 }));
    assert!(!b.contains(CellCoord3D { x: 0, y: 0, z: 10 }));
    assert!(!b.contains(CellCoord3D { x: 0, y: -2, z: 5 }));
}

#[test]
fn boxes_intersect_symmetrically() {
    let a = BoundingBox2D::new(cc(0, 0), cc(4, 4));
    let b = BoundingBox2D::new(cc(4, 4), cc(8, 8));
    let c = BoundingBox2D::new(cc(5, 0), cc(9, 3));
    assert!(a.intersects(&b) && b.intersects(&a));
    assert!(!a.intersects(&c) && !c.intersects(&a));
    assert!(b.intersects(&c) == c.intersects(&b));
    assert!(a.intersects(&a));
}

#[test]
fn ff_lists_every_target_cell_column_by_column() {
    let source = BoundingBox2D::new(cc(0, 0), cc(0, 0));
    let target = BoundingBox2D::new(cc(2, 5), cc(3, 7));
    let dep = TacoDependency::new(source, target, LocalityType::FF);
    let cells = dep.resolve_dependencies(cc(0, 0)).unwrap();
    assert_eq!(cells, vec![cc(2, 5), cc(2, 6), cc(2, 7), cc(3, 5), cc(3, 6), cc(3, 7)]);
}

#[test]
fn fr_at_the_edge_of_u32() {
    let source = BoundingBox2D::new(cc(0, 0), cc(0, 0));
    let target = BoundingBox2D::new(cc(u32::MAX, u32::MAX - 1), cc(u32::MAX, u32::MAX));
    let dep = TacoDependency::new(source, target, LocalityType::FR { source_col: 0, source_row: 0 });
    let cells = dep.resolve_dependencies(cc(0, 0)).unwrap();
    assert_eq!(cells, vec![cc(u32::MAX, u32::MAX - 1), cc(u32::MAX, u32::MAX)]);
}

#[test]
fn unordered_target_box_has_no_cells() {
    let source = BoundingBox2D::new(cc(0, 0), cc(0, 0));
    let target = BoundingBox2D { min_col: 5, min_row: 0, max_col: 4, max_row: 3 };
    let dep = TacoDependency::new(source, target, LocalityType::FF);
    assert_eq!(dep.resolve_dependencies(cc(0, 0)), Some(vec![]));
}

#[test]
fn source_outside_range_has_no_dependents() {
    let source = BoundingBox2D::new(cc(0, 0), cc(0, 10));
    let target = BoundingBox2D::new(cc(1, 0), cc(1, 10));
    for loc in [
        LocalityType::FF,
        LocalityType::RR { col_offset: 1, row_offset: 0 },
        LocalityType::RF { target_col: 9, target_row: 9 },
        LocalityType::FR { source_col: 0, source_row: 0 },
    ] {
        let dep = TacoDependency::new(source, target, loc);
        assert_eq!(dep.resolve_dependencies(cc(1, 5)), None);
        assert_eq!(dep.resolve_dependencies(cc(0, 11)), None);
    }
}

#[test]
fn rr_outside_target_is_none() {
    let source = BoundingBox2D::new(cc(0, 0), cc(0, 10));
    let target = BoundingBox2D::new(cc(1, 0), cc(1, 5));
    let dep = TacoDependency::new(source, target, LocalityType::RR { col_offset: 1, row_offset: 0 });
    assert_eq!(dep.resolve_dependencies(cc(0, 7)), None);
    let back = TacoDependency::new(
        BoundingBox2D::new(cc(3, 3), cc(4, 4)),
        BoundingBox2D::new(cc(0, 0), cc(9, 9)),
        LocalityType::RR { col_offset: -3, row_offset: -2 },
    );
    assert_eq!(back.resolve_dependencies(cc(4, 3)), Some(vec![cc(1, 1)]));
}

#[test]
fn rf_ignores_target_range() {
    let source = BoundingBox2D::new(cc(0, 0), cc(0, 10));
    let target = BoundingBox2D::new(cc(1, 0), cc(1, 10));
    let dep = TacoDependency::new(source, target, LocalityType::RF { target_col: 40, target_row: 2 });
    assert_eq!(dep.resolve_dependencies(cc(0, 4)), Some(vec![cc(40, 2)]));
}

#[test]
fn query_concatenates_in_insertion_order() {
    let mut index = TacoSpatialIndex::default();
    assert_eq!(index.query(cc(0, 0)), vec![]);
    let source = BoundingBox2D::new(cc(0, 0), cc(0, 5));
    index.insert(TacoDependency::new(source, BoundingBox2D::new(cc(1, 0), cc(1, 5)), LocalityType::RF { target_col: 8, target_row: 8 }));
    index.insert(TacoDependency::new(source, BoundingBox2D::new(cc(2, 0), cc(2, 1)), LocalityType::FF));
    index.insert(TacoDependency::new(BoundingBox2D::new(cc(5, 5), cc(6, 6)), source, LocalityType::FF));
    index.insert(TacoDependency::new(source, BoundingBox2D::new(cc(1, 0), cc(1, 5)), LocalityType::RR { col_offset: 1, row_offset: 1 }));
    assert_eq!(index.dependencies.len(), 4);
    assert_eq!(index.query(cc(0, 2)), vec![cc(8, 8), cc(2, 0), cc(2, 1), cc(1, 3)]);
    assert_eq!(index.query(cc(3, 3)), vec![]);
}

#[test]
fn resolvable_checks_before_resolution() {
    let whole = BoundingBox2D::new(cc(0, 0), cc(u32::MAX, u32::MAX));
    let near = TacoDependency::new(whole, whole, LocalityType::RR { col_offset: 1, row_offset: -1 });
    assert!(near.is_resolvable(cc(5, 5)));
    assert!(near.is_resolvable(cc(0, 0)));
    // i32::MAX + 1 leaves i32 arithmetic
    assert!(!near.is_resolvable(cc(2147483647, 5)));
    // a row above i32::MAX wraps to a negative i32 first, and -1 is still in range
    assert!(near.is_resolvable(cc(5, 3000000000)));
    let far = TacoDependency::new(whole, whole, LocalityType::RR { col_offset: 0, row_offset: i32::MIN });
    assert!(!far.is_resolvable(cc(0, 2147483648)));
    assert!(far.is_resolvable(cc(0, 0)));
    let narrow = BoundingBox2D::new(cc(0, 0), cc(3, 3));
    let outside = TacoDependency::new(narrow, narrow, LocalityType::RR { col_offset: i32::MAX, row_offset: 0 });
    assert!(outside.is_resolvable(cc(10, 10)));
    assert!(!outside.is_resolvable(cc(1, 1)));
    let fixed = TacoDependency::new(whole, whole, LocalityType::FF);
    assert!(fixed.is_resolvable(cc(u32::MAX, u32::MAX)));

    let mut index = TacoSpatialIndex::default();
    assert!(index.is_resolvable(cc(1, 1)));
    index.insert(fixed);
    index.insert(outside);
    assert!(index.is_resolvable(cc(10, 10)));
    assert!(!index.is_resolvable(cc(1, 1)));
}
