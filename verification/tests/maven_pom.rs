use java_lsp::maven::fetch::{pom_classes_jar, pom_javadoc_jar, pom_sources_jar, progress_percentage};
use java_lsp::maven::pom::{resolve, Dependencies, Dependency, ParseError, Parent, Pom};
use java_lsp::maven::tree;

fn quarkus() -> tree::Pom {
    tree::Pom {
        group_id: "io.quarkus".to_string(),
        artivact_id: "quarkus-resteasy-reactive".to_string(),
        version: "3.7.2".to_string(),
        scope: tree::DependencyScope::Compile,
    }
}

#[test]
fn sources_path_base() {
    let out = pom_sources_jar(&quarkus(), "~/.m2/");
    assert_eq!(
        out,
        "~/.m2/repository/io/quarkus/quarkus-resteasy-reactive/3.7.2/quarkus-resteasy-reactive-3.7.2-sources.jar"
    );
}

#[test]
fn javadoc_path_base() {
    let out = pom_javadoc_jar(&quarkus(), "~/.m2/");
    assert_eq!(
        out,
        "~/.m2/repository/io/quarkus/quarkus-resteasy-reactive/3.7.2/quarkus-resteasy-reactive-3.7.2-javadoc.jar"
    );
}

#[test]
fn classes_path_base() {
    let out = pom_classes_jar(&quarkus(), "/home/a/.m2");
    assert_eq!(
        out,
        "/home/a/.m2/repository/io/quarkus/quarkus-resteasy-reactive/3.7.2/quarkus-resteasy-reactive-3.7.2.jar"
    );
}

#[test]
fn group_with_dots_becomes_folders() {
    let pom = tree::Pom {
        group_id: "org.apache.commons".to_string(),
        artivact_id: "commons-lang3".to_string(),
        version: "3.14.0".to_string(),
        scope: tree::DependencyScope::Compile,
    };
    assert_eq!(
        pom_classes_jar(&pom, "m2"),
        "m2/repository/org/apache/commons/commons-lang3/3.14.0/commons-lang3-3.14.0.jar"
    );
}

#[test]
fn jars_of_one_dependency_share_their_folder() {
    let q = quarkus();
    let classes = pom_classes_jar(&q, "m2");
    let sources = pom_sources_jar(&q, "m2");
    let javadoc = pom_javadoc_jar(&q, "m2");
    let folder = "m2/repository/io/quarkus/quarkus-resteasy-reactive/3.7.2/";
    assert_eq!(classes, format!("{folder}quarkus-resteasy-reactive-3.7.2.jar"));
    assert_eq!(sources, format!("{folder}quarkus-resteasy-reactive-3.7.2-sources.jar"));
    assert_eq!(javadoc, format!("{folder}quarkus-resteasy-reactive-3.7.2-javadoc.jar"));
}

fn dependency(artifact: &str) -> Dependency {
    Dependency {
        artifact_id: artifact.to_string(),
        dtype: None,
        group_id: "g".to_string(),
        optional: None,
        scope: None,
        exclusions: None,
        version: Some("1".to_string()),
    }
}

fn pom(artifact: &str, parent: Option<Parent>, deps: Option<Vec<Dependency>>, properties: Vec<(&str, &str)>) -> Pom {
    Pom {
        model_version: Some("4.0.0".to_string()),
        group_id: "g".to_string(),
        artivact_id: artifact.to_string(),
        packaging: None,
        name: None,
        version: "1".to_string(),
        parent,
        dependencies: deps.map(|d| Dependencies { dependencies: d }),
        dependency_management: None,
        properties: properties.into_iter().map(|(k, v)| (k.to_string(), v.to_string())).collect(),
    }
}

fn parent_ref(artifact: &str) -> Parent {
    Parent { artifact_id: artifact.to_string(), group_id: "g".to_string(), version: "1".to_string() }
}

#[test]
fn parse_requires_parrent() {
    let child = pom("child", Some(parent_ref("base")), None, vec![]);
    let out = resolve(child, vec![]);
    match out {
        Err(ParseError::ParentInformationNeeded(p)) => assert_eq!(p.artifact_id, "base"),
        _ => panic!("a missing parent is an error"),
    }
}

#[test]
fn resolve_without_parent_is_unchanged() {
    let lone = pom("lone", None, Some(vec![dependency("a")]), vec![("k", "v")]);
    let out = resolve(lone, vec![pom("other", None, None, vec![])]).unwrap();
    assert_eq!(out.artivact_id, "lone");
    assert_eq!(out.dependencies.unwrap().dependencies.len(), 1);
    assert_eq!(out.properties, vec![("k".to_string(), "v".to_string())]);
}

#[test]
fn resolve_merges_parent() {
    let child = pom(
        "child",
        Some(parent_ref("base")),
        Some(vec![dependency("own")]),
        vec![("shared", "child"), ("mine", "1")],
    );
    let base = pom("base", None, Some(vec![dependency("inherited")]), vec![("shared", "parent"), ("theirs", "2")]);
    let out = resolve(child, vec![pom("unrelated", None, None, vec![]), base]).unwrap();
    let deps: Vec<String> = out.dependencies.unwrap().dependencies.into_iter().map(|d| d.artifact_id).collect();
    assert_eq!(deps, vec!["own".to_string(), "inherited".to_string()]);
    let mut props = out.properties.clone();
    props.sort();
    assert_eq!(
        props,
        vec![
            ("mine".to_string(), "1".to_string()),
            ("shared".to_string(), "parent".to_string()),
            ("theirs".to_string(), "2".to_string())
        ]
    );
}

#[test]
fn resolve_child_without_dependencies_gets_none() {
    let child = pom("child", Some(parent_ref("base")), None, vec![]);
    let base = pom("base", None, Some(vec![dependency("inherited")]), vec![]);
    let out = resolve(child, vec![base]).unwrap();
    assert!(out.dependencies.is_none());
}

#[test]
fn sources_unpack_beside_the_sources_jar() {
    let out = java_lsp::maven::fetch::pom_source_dir(&quarkus(), "/home/a/.m2");
    assert_eq!(out, "/home/a/.m2/repository/io/quarkus/quarkus-resteasy-reactive/3.7.2/source");
}

#[test]
fn progress_in_percent() {
    assert_eq!(progress_percentage(0, 4), 0);
    assert_eq!(progress_percentage(1, 4), 25);
    assert_eq!(progress_percentage(2, 3), 66);
    assert_eq!(progress_percentage(3, 3), 100);
}
