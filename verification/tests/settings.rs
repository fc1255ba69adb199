use typespace::settings::{parse_plain_path, ContainerKind, ContainerType, ContainerTypeRepr, CratePaths, GeneratedCrate, Std};
use typespace::{TraitProvision, TypespaceTrait, TypespaceTraitSet};

fn repr(
    like: Option<ContainerKind>,
    path: Option<&str>,
    obligations: Option<Vec<TypespaceTraitSet>>,
    provides: Vec<(TypespaceTrait, TraitProvision)>,
) -> ContainerTypeRepr {
    ContainerTypeRepr { like, path: path.map(str::to_string), obligations, provides }
}

#[test]
fn declaration_from_a_preset_keeps_its_answers() {
    let c = ContainerType::try_from_repr(repr(Some(ContainerKind::Vec), None, None, Vec::new())).unwrap();
    assert_eq!(c.path(), "::std::vec::Vec");
    assert_eq!(c.rendered_path(&Std::Unqualified), "Vec");
    assert_eq!(c.rendered_path(&Std::FullyQualified), "::std::vec::Vec");
    assert_eq!(c.obligations().len(), 1);
    assert_eq!(c.provision(TypespaceTrait::Hash), TraitProvision::IfParameters);
    assert_eq!(c.provision(TypespaceTrait::Display), TraitProvision::Never);
    assert_eq!(c.provision(TypespaceTrait::Default), TraitProvision::Always);
}

#[test]
fn declaration_path_replaces_the_preset_path_and_its_prelude() {
    let c = ContainerType::try_from_repr(repr(Some(ContainerKind::BtreeMap), Some("::indexmap::IndexMap"), None, Vec::new()))
        .unwrap();
    assert_eq!(c.path(), "::indexmap::IndexMap");
    assert_eq!(c.rendered_path(&Std::Unqualified), "::indexmap::IndexMap");
    assert_eq!(c.obligations().len(), 2);
    assert!(c.obligation(0).contains(&TypespaceTrait::Ord));
}

#[test]
fn declaration_overrides_apply_in_order() {
    let c = ContainerType::try_from_repr(repr(
        Some(ContainerKind::HashSet),
        None,
        Some(vec![TypespaceTraitSet::empty()]),
        vec![
            (TypespaceTrait::Hash, TraitProvision::Always),
            (TypespaceTrait::Display, TraitProvision::IfParameters),
            (TypespaceTrait::Hash, TraitProvision::IfParameters),
        ],
    ))
    .unwrap();
    assert_eq!(c.provision(TypespaceTrait::Hash), TraitProvision::IfParameters);
    assert_eq!(c.provision(TypespaceTrait::Display), TraitProvision::IfParameters);
    assert_eq!(c.provision(TypespaceTrait::Ord), TraitProvision::Never);
    assert!(c.obligation(0).is_empty());
}

#[test]
fn declaration_without_preset_claims_only_what_rendering_assumes() {
    let c = ContainerType::try_from_repr(repr(
        None,
        Some("::my::Bag"),
        Some(vec![TypespaceTraitSet::empty()]),
        Vec::new(),
    ))
    .unwrap();
    assert_eq!(c.path(), "::my::Bag");
    assert_eq!(c.provision(TypespaceTrait::Clone), TraitProvision::IfParameters);
    assert_eq!(c.provision(TypespaceTrait::Default), TraitProvision::Always);
    assert_eq!(c.provision(TypespaceTrait::Eq), TraitProvision::Never);
}

#[test]
fn incomplete_declaration_is_refused() {
    let err = ContainerType::try_from_repr(repr(None, Some("::my::Bag"), None, Vec::new())).unwrap_err();
    assert!(err.starts_with("a container declaration states the preset it behaves as"));
    let err = ContainerType::try_from_repr(repr(None, None, None, Vec::new())).unwrap_err();
    assert!(err.contains("`like`"));
}

#[test]
fn declaration_with_unparsable_path_is_refused() {
    let err = ContainerType::try_from_repr(repr(Some(ContainerKind::Vec), Some("not a type!"), None, Vec::new()))
        .unwrap_err();
    assert!(err.starts_with("invalid container type \"not a type!\": "), "{err}");
}

#[test]
fn presets_have_their_documented_shape() {
    let map = ContainerKind::HashMap.preset();
    assert_eq!(map.path(), "::std::collections::HashMap");
    assert_eq!(map.provision(TypespaceTrait::Ord), TraitProvision::Never);
    assert!(map.obligation(0).contains(&TypespaceTrait::Hash));
    let set = ContainerKind::BtreeSet.preset();
    assert_eq!(set.path(), "::std::collections::BTreeSet");
    assert_eq!(set.provision(TypespaceTrait::Ord), TraitProvision::IfParameters);
    let option = ContainerKind::Option.preset();
    assert_eq!(option.rendered_path(&Std::Unqualified), "Option");
}

#[test]
fn crate_path_overrides_from_entries() {
    let paths = CratePaths::try_from_entries(vec![
        (GeneratedCrate::Serde, "::my_serde".to_string()),
        (GeneratedCrate::Regress, "::re".to_string()),
        (GeneratedCrate::Serde, "::other_serde".to_string()),
    ])
    .unwrap();
    assert_eq!(paths.get(GeneratedCrate::Serde), Some("::other_serde"));
    assert_eq!(paths.get(GeneratedCrate::Regress), Some("::re"));
    assert_eq!(paths.get(GeneratedCrate::Schemars), None);
    assert_eq!(paths.text(GeneratedCrate::Schemars), "::schemars");
}

#[test]
fn crate_path_overrides_must_be_plain_paths() {
    let err = CratePaths::try_from_entries(vec![(GeneratedCrate::Serde, "::my::Thing<u8>".to_string())]).unwrap_err();
    assert_eq!(err, "invalid crate path \"::my::Thing<u8>\": expected plain ::-separated segments");
    let err = CratePaths::try_from_entries(vec![(GeneratedCrate::Serde, "not a path!".to_string())]).unwrap_err();
    assert!(err.starts_with("invalid crate path \"not a path!\": "), "{err}");
    assert!(parse_plain_path("::serde").is_ok());
}
