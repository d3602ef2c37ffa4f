use aion_tui::read_image::ReadImageTool;

#[test]
fn is_advertised_to_models_without_image_input() {
    // The whole point of this tool: unlike ViewImage it must survive the
    // engine's `requires_image_input` capability filter.
    let tool = ReadImageTool::new("deepseek-v4-flash", None);

    assert!(!tool.requires_image_input());
    assert!(!tool.is_deferred(), "must be eagerly advertised, not hidden behind ToolSearch");
}
