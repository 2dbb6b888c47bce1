use ffbridge::loader::{platform_library_name, LoadError, Loader, OsFamily};

#[test]
fn loader_publishes_once_and_both_callers_see_the_same_table() {
    let mut loader: Loader<u64> = Loader::new();
    assert!(loader.needs_init());
    loader.publish(5).unwrap();
    assert!(!loader.needs_init());
    assert_eq!(*loader.api(), 5);
    // A second load performs no initialization and observes the first table.
    let second = loader.publish(7);
    assert!(matches!(second, Err(LoadError::AlreadyLoaded)));
    assert!(!loader.needs_init());
    assert_eq!(*loader.api(), 5);
}

#[test]
fn platform_names_follow_the_family_convention() {
    assert_eq!(platform_library_name(OsFamily::Windows), "ffmodel-c.dll");
    assert_eq!(platform_library_name(OsFamily::MacOs), "libffmodel-c.dylib");
    assert_eq!(platform_library_name(OsFamily::Unix), "libffmodel-c.so");
}
