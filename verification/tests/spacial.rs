use voxelcore::fixed::{Fix3, IVec3};
use voxelcore::spacial::{Neighborhood, Side, Sides};
use voxelcore::swizzle::{Dim3, Dim3Selector, Swizzle3};
use voxelcore::terrain::{ChunkBlocks, Block, CHUNK_WIDTH};

fn iv(x: i64, y: i64, z: i64) -> IVec3 {
    IVec3 { x, y, z }
}

#[test]
fn sides_map_applies_per_side() {
    let sides = Sides { x_pos: 1i64, x_neg: 2, y_pos: 3, y_neg: 4, z_pos: 5, z_neg: 6 };
    let doubled = sides.map(|v: i64| v * 2);
    assert_eq!(doubled.x_pos, 2);
    assert_eq!(doubled.z_neg, 12);
    assert_eq!(*doubled.side(Side::YNeg), 8);
}

#[test]
fn sides_axis_gives_the_unit_vectors() {
    let axis = Sides::axis();
    assert_eq!(axis.x_pos, iv(1, 0, 0));
    assert_eq!(axis.y_neg, iv(0, -1, 0));
    assert_eq!(*axis.side(Side::ZPos), iv(0, 0, 1));
    let all = Side::all();
    assert_eq!(all.len(), 6);
    assert_eq!(all[0], Side::XPos);
    assert_eq!(all[0].unit(), iv(1, 0, 0));
}

#[test]
fn neighborhood_from_surrounds_a_coordinate() {
    let n = Neighborhood::from(iv(4, 5, 6));
    assert_eq!(n.zero, iv(4, 5, 6));
    assert_eq!(n.x_pos, iv(5, 5, 6));
    assert_eq!(n.y_neg, iv(4, 4, 6));
    let arr = n.as_array();
    assert_eq!(*arr[0], iv(4, 5, 6));
    assert_eq!(*arr[6], iv(4, 5, 5));
}

#[test]
fn neighborhood_all_and_try_map() {
    let n = Neighborhood::from(iv(0, 0, 0));
    assert!(n.all(|v: &IVec3| v.x >= -1));
    assert!(!n.all(|v: &IVec3| v.x >= 0));
    let mapped = n.try_map(|v: IVec3| if v.y >= -1 { Some(v.y) } else { None }).unwrap();
    assert_eq!(mapped.y_pos, 1);
    let n2 = Neighborhood::from(iv(0, 0, 0));
    assert!(n2.try_map(|v: IVec3| if v.y >= 0 { Some(v.y) } else { None }).is_none());
}

#[test]
fn neighborhood_lookup_crosses_one_face() {
    let mut home = ChunkBlocks::new();
    home.place(iv(0, 5, 5), Block::Stone);
    let mut west = ChunkBlocks::new();
    west.place(iv(CHUNK_WIDTH - 1, 5, 5), Block::Dirt);
    let empty = ChunkBlocks::new();
    let nb = Neighborhood {
        zero: &home,
        x_pos: &empty,
        x_neg: &west,
        y_pos: &empty,
        y_neg: &empty,
        z_pos: &empty,
        z_neg: &empty,
    };
    assert!(nb.get(iv(0, 5, 5)));
    // one step across the -X face reads the neighbor's boundary layer
    assert!(nb.get(iv(-1, 5, 5)));
    assert!(!nb.get(iv(-1, 6, 5)));
    assert!(!nb.get(iv(CHUNK_WIDTH, 5, 5)));
}

#[test]
fn split_and_compose_are_inverses() {
    let v = iv(7, 8, 9);
    for dim in [Dim3::X, Dim3::Y, Dim3::Z] {
        let (it, others) = v.split(dim);
        assert_eq!(IVec3::compose(dim, it, others), v);
    }
    let (it, others) = v.split(Dim3::Y);
    assert_eq!(it, 8);
    assert_eq!(others, [7, 9]);
    let f = Fix3 { x: 1, y: 2, z: 3 };
    let (it, others) = f.split(Dim3::Z);
    assert_eq!(it, 3);
    assert_eq!(others, [1, 2]);
}

#[test]
fn swizzles_permute_components() {
    let v = iv(1, 2, 3);
    assert_eq!(Swizzle3::XYZ.apply_ivec(v), iv(1, 2, 3));
    assert_eq!(Swizzle3::ZYX.apply_ivec(v), iv(3, 2, 1));
    assert_eq!(Swizzle3::YZX.apply_ivec(v), iv(2, 3, 1));
    let f = Fix3 { x: 10, y: 20, z: 30 };
    assert_eq!(Swizzle3::XZY.apply_fix(f), Fix3 { x: 10, y: 30, z: 20 });
    assert_eq!(v.axis(Dim3::Z), 3);
    assert_eq!(v.with_axis(Dim3::Z, 9), iv(1, 2, 9));
}
