use hi_telos::structured::StructuredContent;

#[test]
fn mock_payload_has_overview_and_mock_data() {
    let payload = StructuredContent::mock_payload();
    assert_eq!(payload.title, "Telos Core Flow");
    assert_eq!(payload.sections.len(), 2);
    assert_eq!(payload.sections[0].heading, "Overview");
    assert_eq!(payload.sections[0].children[0].heading, "Key Capabilities");
    assert_eq!(payload.sections[1].heading, "Mock Data");
    assert_eq!(payload.sections[1].children[0].body.len(), 3);
    assert!(payload.sections[1].children[0].children.is_empty());
}
