use sam_toolkit::image::{
    fit_width, reader_bounds, thumbnail_bounds, ImageRegions, Region, HERO, LAYER_DIALOG,
    LAYER_PANE, THUMBNAIL,
};
use sam_toolkit::site_path::SitePath;

fn region(url: &str, visible_rows: u16) -> Region {
    Region {
        url: SitePath::new(url),
        x: 0,
        y: -2,
        cols: 10,
        rows: 6,
        visible_x: 0,
        visible_y: 0,
        visible_cols: 10,
        visible_rows,
    }
}

#[test]
fn boxes_narrow_to_the_column() {
    assert_eq!(fit_width(100, HERO), (56, 16));
    assert_eq!(fit_width(10, HERO), (10, 16));
    assert_eq!(fit_width(0, THUMBNAIL), (1, 8));
    assert_eq!(fit_width(usize::MAX, THUMBNAIL), (32, 8));
    assert_eq!(thumbnail_bounds(80), (32, 8));
    assert_eq!(reader_bounds(30), (26, 16));
}

#[test]
fn insets_measure_what_the_clip_took() {
    assert_eq!(region("/a.png", 3).insets(), (2, 0, 1, 0));
    assert_eq!(region("/a.png", 0).insets(), (2, 0, 4, 0));
}

#[test]
fn only_the_top_layer_reports_and_only_what_shows() {
    let mut regions = ImageRegions::new();
    regions.begin_frame(LAYER_DIALOG);
    regions.record(region("/pane.png", 3), LAYER_PANE);
    regions.record(region("/dialog.png", 3), LAYER_DIALOG);
    regions.record(region("/hidden.png", 0), LAYER_DIALOG);
    let shown = regions.regions();
    assert_eq!(shown.len(), 1);
    assert_eq!(shown[0].url.as_str(), "/dialog.png");
    regions.begin_frame(LAYER_PANE);
    assert!(regions.regions().is_empty());
}
