use game_of_life::renderer::Options;

#[test]
fn options_new_has_documented_defaults() {
    let options = Options::new();
    assert_eq!(options.cell_size_pixels(), 5);
    assert_eq!(options.grid_color().as_str(), "#CCCCCC");
    assert_eq!(options.dead_color().as_str(), "#FFFFFF");
    assert_eq!(options.alive_color().as_str(), "#000000");
}

#[test]
fn options_default_matches_new() {
    let options = Options::default();
    assert_eq!(options.cell_size_pixels(), 5);
    assert_eq!(options.grid_color().as_str(), "#CCCCCC");
    assert_eq!(options.dead_color().as_str(), "#FFFFFF");
    assert_eq!(options.alive_color().as_str(), "#000000");
}
