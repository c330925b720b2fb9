use photo_editor::crop::{AspectLock, CropAction};
use photo_editor::masks::{clamp_selection, mask_name, MaskAction, MaskShape};
use photo_editor::ui::{AdjustOutput, CurveChannel, WelcomeAction};

#[test]
fn aspect_labels() {
    let labels: Vec<&str> = AspectLock::ALL.iter().map(|a| a.label()).collect();
    assert_eq!(
        labels,
        vec!["Free", "Original", "1 : 1", "3 : 2", "2 : 3", "4 : 3", "3 : 4", "16 : 9", "9 : 16"]
    );
    assert_eq!(AspectLock::default(), AspectLock::Free);
}

#[test]
fn aspect_ratio_terms() {
    assert_eq!(AspectLock::Free.ratio_terms((300, 200)), None);
    assert_eq!(AspectLock::Original.ratio_terms((300, 200)), Some((300, 200)));
    assert_eq!(AspectLock::Original.ratio_terms((300, 0)), Some((300, 1)));
    assert_eq!(AspectLock::R16x9.ratio_terms((1, 1)), Some((16, 9)));
    assert_eq!(AspectLock::R2x3.ratio_terms((1, 1)), Some((2, 3)));
}

#[test]
fn shape_selection_stays_inside_the_mask() {
    assert_eq!(clamp_selection(5, 3), 2);
    assert_eq!(clamp_selection(1, 3), 1);
    assert_eq!(clamp_selection(0, 0), 0);
    assert_eq!(clamp_selection(4, 0), 0);
}

#[test]
fn new_masks_are_named_by_kind_and_number() {
    assert_eq!(mask_name(MaskShape::Radial.kind_name(), 3), "Radial 3");
    assert_eq!(mask_name("Range", 1), "Range 1");
    assert_eq!(MaskShape::Linear.kind_name(), "Linear");
    assert_eq!(MaskShape::Brush.kind_name(), "Brush");
}

#[test]
fn panel_outputs() {
    assert_eq!(CurveChannel::default(), CurveChannel::Master);
    let out = AdjustOutput { changed: true, eyedropper_toggled: false };
    assert!(out.changed);
    assert_ne!(CropAction::Nothing, CropAction::Done);
    assert_ne!(MaskAction::Changed, MaskAction::ViewChanged);
    assert_eq!(WelcomeAction::OpenRecent("/a".to_string()), WelcomeAction::OpenRecent("/a".to_string()));
}
