use faber_package::selection::{DeviceBackend, DeviceSelection};

#[test]
fn route_selection_spellings_parse_without_runtime() {
    assert_eq!(DeviceSelection::from_spelling("auto"), Some(DeviceSelection::Auto));
    assert_eq!(DeviceSelection::from_spelling("metal"), Some(DeviceSelection::Metal));
    assert_eq!(DeviceSelection::from_spelling("cuda"), Some(DeviceSelection::Cuda));
    assert_eq!(DeviceSelection::from_spelling("nope"), None);
}

#[test]
fn selection_spellings_round_trip() {
    for backend in [DeviceBackend::Metal, DeviceBackend::Cuda] {
        assert_eq!(DeviceSelection::from_spelling(&backend.spelling()), Some(backend.selection()));
    }
    assert_eq!(DeviceSelection::from_spelling("Metal"), None);
    assert_eq!(DeviceSelection::from_spelling(""), None);
    assert_eq!(DeviceBackend::Cuda.selection(), DeviceSelection::Cuda);
    assert_eq!(DeviceBackend::Metal.spelling(), "metal");
}
