//! Tests of the tile-grid environment description and the display settings.

use gbp::environment::{EnvironmentError, EnvironmentType, TileGrid};
use gbp::ui::{DrawSection, DrawSetting, InteractionSection};

#[test]
fn grid_dimensions_and_tiles() {
    let grid = TileGrid::new(vec!["ab".to_string(), "cd".to_string()]);
    assert!(!grid.is_empty());
    assert_eq!(grid.nrows(), 2);
    assert_eq!(grid.ncols(), 2);
    assert_eq!(grid.get_tile(0, 0), Some('a'));
    assert_eq!(grid.get_tile(1, 1), Some('d'));
    assert_eq!(grid.get_tile(2, 0), None);
    assert_eq!(grid.get_tile(0, 2), None);
    assert!(grid.validate().is_ok());
}

#[test]
fn grid_validation_reports_both_faults() {
    let empty = TileGrid::new(Vec::new());
    assert!(empty.is_empty());
    assert_eq!(empty.validate(), Err(EnvironmentError::EmptyGrid));
    let ragged = TileGrid::new(vec!["abc".to_string(), "ab".to_string()]);
    assert_eq!(ragged.validate(), Err(EnvironmentError::DifferentLengthRows));
}

#[test]
fn grid_counts_characters_not_bytes() {
    let grid = TileGrid::new(vec!["┌┬┐".to_string()]);
    assert_eq!(grid.ncols(), 3);
    assert_eq!(grid.get_tile(0, 1), Some('┬'));
}

#[test]
fn draw_setting_parses_every_known_name() {
    assert_eq!(
        DrawSetting::from_str("communication_graph"),
        Some(DrawSetting::CommunicationGraph)
    );
    assert_eq!(
        DrawSetting::from_str("predicted_trajectories"),
        Some(DrawSetting::PredictedTrajectories)
    );
    assert_eq!(DrawSetting::from_str("waypoints"), Some(DrawSetting::Waypoints));
    assert_eq!(DrawSetting::from_str("uncertainty"), Some(DrawSetting::Uncertainty));
    assert_eq!(DrawSetting::from_str("paths"), Some(DrawSetting::Paths));
    assert_eq!(DrawSetting::from_str("height_map"), Some(DrawSetting::HeightMap));
    assert_eq!(DrawSetting::from_str("flat_map"), Some(DrawSetting::FlatMap));
    assert_eq!(DrawSetting::from_str("something_else"), None);
}

#[test]
fn draw_section_labels_and_defaults() {
    assert_eq!(DrawSection::to_display_string("communication_graph"), "Communication");
    assert_eq!(DrawSection::to_display_string("predicted_trajectories"), "Trajectories");
    assert_eq!(DrawSection::to_display_string("height_map"), "Height Map");
    assert_eq!(DrawSection::to_display_string("nonsense"), "Unknown");
    let d = DrawSection::default();
    assert!(d.predicted_trajectories);
    assert!(!d.communication_graph);
    assert!(d.flat_map);
    assert!(InteractionSection::default().ui_focus_cancels_inputs);
}

#[test]
fn named_layouts_are_rectangular() {
    let cases = [
        (EnvironmentType::Intersection, 1, 1),
        (EnvironmentType::Intermediate, 3, 4),
        (EnvironmentType::Complex, 5, 8),
        (EnvironmentType::Circle, 1, 1),
        (EnvironmentType::Maze, 17, 15),
        (EnvironmentType::Test, 4, 4),
    ];
    for (which, rows, cols) in cases {
        let grid = TileGrid::layout(which);
        assert_eq!(grid.nrows(), rows);
        assert_eq!(grid.ncols(), cols);
        assert!(grid.validate().is_ok());
    }
    assert_eq!(TileGrid::layout(EnvironmentType::Maze).get_tile(1, 1), Some('╶'));
}
