//! Transforms as coordinate systems.

use gpui_zgui::spatial::affine_of;
use gpui_zgui::spatial::Space;
use gpui_zgui::spatial::TransformationMatrix;
use gpui_zgui::spatial::Transforms;

/// A transform by rows, with its translation.
fn matrix(rows: [[f32; 2]; 2], translation: [f32; 2]) -> TransformationMatrix {
    TransformationMatrix {
        row0_col0: rows[0][0].to_bits(),
        row0_col1: rows[0][1].to_bits(),
        row1_col0: rows[1][0].to_bits(),
        row1_col1: rows[1][1].to_bits(),
        translation0: translation[0].to_bits(),
        translation1: translation[1].to_bits(),
    }
}

fn unit() -> TransformationMatrix {
    matrix([[1.0, 0.0], [0.0, 1.0]], [0.0, 0.0])
}

fn rotation(angle: f32) -> TransformationMatrix {
    let (sin, cos) = angle.sin_cos();
    matrix([[cos, -sin], [sin, cos]], [0.0, 0.0])
}

/// Where the transform, taken by rows, puts a point.
fn apply(transform: &TransformationMatrix, x: f32, y: f32) -> (f32, f32) {
    (
        f32::from_bits(transform.row0_col0) * x
            + f32::from_bits(transform.row0_col1) * y
            + f32::from_bits(transform.translation0),
        f32::from_bits(transform.row1_col0) * x
            + f32::from_bits(transform.row1_col1) * y
            + f32::from_bits(transform.translation1),
    )
}

/// The conversion is right exactly when both forms move a point to the same place.
fn agrees_on(transform: TransformationMatrix, x: f32, y: f32) {
    let theirs = apply(&transform, x, y);
    let ours = affine_of(&transform);
    let mapped_x =
        f32::from_bits(ours.a) * x + f32::from_bits(ours.c) * y + f32::from_bits(ours.tx);
    let mapped_y =
        f32::from_bits(ours.b) * x + f32::from_bits(ours.d) * y + f32::from_bits(ours.ty);
    assert!(
        (theirs.0 - mapped_x).abs() < 1e-4 && (theirs.1 - mapped_y).abs() < 1e-4,
        "the rows map ({x}, {y}) to {theirs:?}, the affine maps it to ({mapped_x}, {mapped_y})"
    );
}

#[test]
fn a_translation_agrees_with_gpui() {
    let transform = matrix([[1.0, 0.0], [0.0, 1.0]], [7.0, -3.0]);
    agrees_on(transform, 0.0, 0.0);
    agrees_on(transform, 5.0, 11.0);
}

#[test]
fn a_rotation_agrees_with_gpui() {
    // A quarter turn is the case that catches a transposed matrix: it maps the x axis onto the y
    // axis, so swapping the two middle coefficients sends the point the wrong way.
    let transform = rotation(std::f32::consts::FRAC_PI_2);
    agrees_on(transform, 1.0, 0.0);
    agrees_on(transform, 0.0, 1.0);
    agrees_on(transform, 3.0, 5.0);
}

#[test]
fn a_scale_then_translation_agrees_with_gpui() {
    // Scaling first and moving afterwards scales the move as well.
    let transform = matrix([[2.0, 0.0], [0.0, 3.0]], [2.0 * 4.0, 3.0 * 6.0]);
    agrees_on(transform, 1.0, 1.0);
    agrees_on(transform, -2.0, 8.0);
}

#[test]
fn equal_matrices_share_one_coordinate_system() {
    let mut transforms = Transforms::new();
    let rotated = rotation(std::f32::consts::FRAC_PI_4);
    let first = transforms.id_for(&rotated);
    let again = transforms.id_for(&rotated);
    assert_eq!(first, again, "one matrix names one coordinate system");
}

#[test]
fn the_identity_costs_no_node() {
    let mut transforms = Transforms::new();
    assert_eq!(transforms.id_for(&unit()), Space::Viewport);
    let signed = matrix([[1.0, -0.0], [-0.0, 1.0]], [-0.0, 0.0]);
    assert_eq!(transforms.id_for(&signed), Space::Viewport);
    assert_eq!(transforms.begin_frame(), Vec::<u64>::new());
}

#[test]
fn different_matrices_have_different_owners() {
    let mut transforms = Transforms::new();
    let one = rotation(0.25);
    let two = rotation(0.5);
    assert_eq!(
        transforms.id_for(&one),
        Space::Owned { owner: 1, affine: affine_of(&one) }
    );
    assert_eq!(
        transforms.id_for(&two),
        Space::Owned { owner: 2, affine: affine_of(&two) }
    );
}

#[test]
fn matrices_that_differ_in_the_sign_of_a_zero_share_an_owner() {
    let mut transforms = Transforms::new();
    let one = matrix([[2.0, 0.0], [0.0, 2.0]], [0.0, 0.0]);
    let two = matrix([[2.0, -0.0], [0.0, 2.0]], [0.0, -0.0]);
    let first = transforms.id_for(&one);
    let second = transforms.id_for(&two);
    assert!(matches!(
        (first, second),
        (Space::Owned { owner: 1, .. }, Space::Owned { owner: 1, .. })
    ));
}

#[test]
fn an_owner_is_released_after_a_frame_without_it() {
    let mut transforms = Transforms::new();
    let kept = rotation(0.25);
    let idle = rotation(0.5);
    assert!(matches!(transforms.id_for(&kept), Space::Owned { owner: 1, .. }));
    assert!(matches!(transforms.id_for(&idle), Space::Owned { owner: 2, .. }));
    assert_eq!(transforms.begin_frame(), Vec::<u64>::new());
    assert!(matches!(transforms.id_for(&kept), Space::Owned { owner: 1, .. }));
    // Asking for the one twice does not stand in for asking for the other.
    assert!(matches!(transforms.id_for(&kept), Space::Owned { owner: 1, .. }));
    assert_eq!(transforms.begin_frame(), vec![2]);
    // A released matrix that comes back is given a new owner.
    assert!(matches!(transforms.id_for(&idle), Space::Owned { owner: 3, .. }));
    assert_eq!(transforms.begin_frame(), vec![1]);
}
