//! Host bindings and ordered maps of names.

use mcode_plugin_host::name_map::NameMap;
use mcode_plugin_host::plugin_api::PluginId;
use mcode_plugin_host::registry::bindings::{
    HostBindings, HostBindingsError, RawHostBindings, ToolBindingTarget,
};
use mcode_plugin_host::resources_validation::ResourcesValidationError;

fn raw(binding_version: u32, versions: &[&str]) -> RawHostBindings {
    let mut tool_binding = NameMap::new();
    for (position, version) in versions.iter().enumerate() {
        tool_binding.insert(
            format!("tool{position}"),
            ToolBindingTarget {
                plugin_id: PluginId { text: "alpha".to_owned() },
                version: (*version).to_owned(),
            },
        );
    }
    RawHostBindings { binding_version, tool_binding }
}

fn refusal(bytes: &[u8], decoded: Option<RawHostBindings>) -> HostBindingsError {
    HostBindings::parse_json(bytes, 8, decoded).unwrap_err()
}

#[test]
fn decoded_bindings_keep_their_targets() {
    let bindings =
        HostBindings::parse_json(b"{}", 2, Some(raw(1, &["1.2.3", "2.0.0-rc.1+build"]))).unwrap();
    assert_eq!(bindings.tool_binding.len(), 2);
    let target = bindings.tool_binding.get("tool1").unwrap();
    assert_eq!(target.plugin_id().text, "alpha");
    assert_eq!(target.version(), "2.0.0-rc.1+build");
    assert!(bindings.tool_binding.get("tool2").is_none());
    assert_eq!(HostBindings::empty().tool_binding.len(), 0);
    assert_eq!(HostBindings::default().tool_binding.len(), 0);
}

#[test]
fn oversized_bindings_are_refused_first() {
    assert_eq!(refusal(b"not json at all", None), HostBindingsError::TooLarge);
    assert!(HostBindings::fits(b"12345678", 8));
    assert!(!HostBindings::fits(b"123456789", 8));
}

#[test]
fn malformed_bindings_are_refused() {
    assert_eq!(refusal(b"{", Some(raw(1, &[]))), HostBindingsError::InvalidJson);
    assert_eq!(refusal(b"{} x", Some(raw(1, &[]))), HostBindingsError::InvalidJson);
    assert_eq!(refusal(b"\xff", Some(raw(1, &[]))), HostBindingsError::InvalidJson);
    assert_eq!(refusal(b"{}", None), HostBindingsError::InvalidJson);
}

#[test]
fn other_format_versions_are_refused() {
    assert_eq!(refusal(b"{}", Some(raw(0, &[]))), HostBindingsError::UnsupportedVersion);
    assert_eq!(refusal(b"{}", Some(raw(2, &["x"]))), HostBindingsError::UnsupportedVersion);
}

#[test]
fn target_versions_are_semantic() {
    for version in ["", "1", "1.2", "01.2.3", "1.2.3.4", "v1.2.3", "latest"] {
        assert_eq!(
            refusal(b"{}", Some(raw(1, &["1.0.0", version]))),
            HostBindingsError::InvalidVersion,
        );
    }
}

#[test]
fn binding_errors_have_messages() {
    assert_eq!(
        HostBindingsError::TooLarge.message(),
        "host plugin bindings exceed their size limit",
    );
    assert_eq!(HostBindingsError::InvalidJson.message(), "host plugin bindings JSON is invalid");
    assert_eq!(
        HostBindingsError::UnsupportedVersion.message(),
        "host plugin bindings version is unsupported",
    );
    assert_eq!(
        HostBindingsError::InvalidVersion.message(),
        "host plugin binding target version is invalid",
    );
}

#[test]
fn resources_errors_have_messages() {
    assert_eq!(
        ResourcesValidationError::InvalidArgument.message(),
        "Resources value is invalid",
    );
    assert_eq!(ResourcesValidationError::Limit.message(), "Resources value exceeds its limit");
}

#[test]
fn names_are_kept_in_byte_order() {
    let mut map = NameMap::new();
    for name in ["b", "aa", "", "é", "a", "Z"] {
        assert!(!map.insert(name.to_owned(), name.len()));
    }
    let names: Vec<&str> = (0..map.len()).map(|at| map.name_at(at)).collect();
    assert_eq!(names, ["", "Z", "a", "aa", "b", "é"]);
    assert_eq!(*map.value_at(5), 2);
    assert_eq!(map.values().into_iter().copied().collect::<Vec<_>>(), [0, 1, 1, 2, 1, 2]);
    assert!(map.contains_name("aa"));
    assert!(!map.contains_name("ab"));
}

#[test]
fn inserting_a_name_again_replaces_its_value() {
    let mut map = NameMap::new();
    assert!(!map.insert("a".to_owned(), 1));
    assert!(map.insert("a".to_owned(), 2));
    assert_eq!(map.len(), 1);
    assert_eq!(map.get("a"), Some(&2));
    assert_eq!(map.remove("b"), None);
    assert_eq!(map.remove("a"), Some(2));
    assert_eq!(map.len(), 0);
    assert_eq!(map.get("a"), None);
}

#[test]
fn order_of_insertion_does_not_matter() {
    let fill = |names: [&str; 3]| {
        let mut map = NameMap::new();
        for name in names {
            map.insert(name.to_owned(), ());
        }
        (0..map.len()).map(|at| map.name_at(at).to_owned()).collect::<Vec<_>>()
    };
    assert_eq!(fill(["x", "y", "z"]), fill(["z", "x", "y"]));
}
