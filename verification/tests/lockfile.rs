//! Lockfiles of every format.
use pkgradar::entry::{Ecosystem, LockfileEntry};
use pkgradar::lockfile::composer::parse_composer_lock;
use pkgradar::lockfile::gemfile::parse_gemfile_lock;
use pkgradar::lockfile::npm::parse_npm;
use pkgradar::lockfile::nuget::{parse_nuget_assets, parse_nuget_lock, parse_packages_config};
use pkgradar::lockfile::pnpm::{parse_pnpm, parse_pnpm_package_key};
use pkgradar::lockfile::pom::{parse_pom_xml, strip_xml_block, strip_xml_comments, xml_inner_text};
use pkgradar::lockfile::pypi::{
    is_valid_pypi_name, make_pypi_entry, normalize_pypi_name, parse_pipfile_lock,
};
use pkgradar::lockfile::requirements::{parse_requirements_line, parse_requirements_txt};
use pkgradar::lockfile::toml_locks::{
    parse_cargo_lock, parse_pdm_lock, parse_poetry_lock, parse_uv_lock,
};
use pkgradar::lockfile::yarn::{parse_yarn_name, parse_yarn_v1};
use pkgradar::lockfile::{
    detect_kind, gate_list, is_lockfile_name, parse, LockfileError, LockfileKind,
};

#[test]
fn npm_v2_parses() {
    let content = r#"{
            "lockfileVersion": 3,
            "packages": {
                "": { "name": "root", "version": "0.1.0" },
                "node_modules/lodash": { "version": "4.17.21" },
                "node_modules/@types/node": { "version": "22.5.4" }
            }
        }"#;
    let entries = parse_npm(content).unwrap();
    let specs: Vec<String> = entries.iter().map(|e| e.spec()).collect();
    assert!(specs.contains(&"lodash@4.17.21".to_string()));
    assert!(specs.contains(&"@types/node@22.5.4".to_string()));
}

#[test]
fn pnpm_modern_parses() {
    let content = r#"
lockfileVersion: '9.0'
packages:
  /lodash@4.17.21: {}
  /@types/node@22.5.4: {}
  /react@18.3.1(react-dom@18.3.1): {}
"#;
    let entries = parse_pnpm(content).unwrap();
    let specs: Vec<String> = entries.iter().map(|e| e.spec()).collect();
    assert!(specs.contains(&"lodash@4.17.21".to_string()));
    assert!(specs.contains(&"@types/node@22.5.4".to_string()));
    assert!(specs.contains(&"react@18.3.1".to_string()));
}

#[test]
fn yarn_v1_parses() {
    let content = r#"
"@types/node@^22.0.0":
  version "22.5.4"
  resolved "https://..."

"lodash@^4.17.0", "lodash@~4.17.21":
  version "4.17.21"
  resolved "https://..."
"#;
    let entries = parse_yarn_v1(content).unwrap();
    let specs: Vec<String> = entries.iter().map(|e| e.spec()).collect();
    assert!(specs.contains(&"@types/node@22.5.4".to_string()));
    assert!(specs.contains(&"lodash@4.17.21".to_string()));
}

#[test]
fn yarn_berry_errors_clearly() {
    let content = "__metadata:\n  version: 6\n  cacheKey: 8\n";
    let err = detect_kind("yarn.lock", content).unwrap_err();
    assert!(err.message().contains("Yarn Berry"));
}

#[test]
fn requirements_txt_pinned_only() {
    let content = "\
# bound
requests==2.31.0
urllib3==2.0.7 ; python_version >= \"3.10\"
flask[async]==3.0.0
unpinned-package>=1.0.0
ranged==1.0.0,!=1.1.0
-r requirements-dev.txt
--hash=sha256:abc
git+https://github.com/x/y.git@v1
torch===2.5.0
";
    let entries = parse_requirements_txt(content).unwrap();
    let specs: Vec<String> = entries.iter().map(|e| e.spec()).collect();
    assert!(specs.contains(&"requests==2.31.0".to_string()));
    assert!(specs.contains(&"urllib3==2.0.7".to_string()));
    assert!(specs.contains(&"flask==3.0.0".to_string()));
    assert!(specs.contains(&"torch==2.5.0".to_string()));
    assert!(!specs.iter().any(|s| s.starts_with("unpinned-package")));
    assert!(!specs.iter().any(|s| s.starts_with("ranged")));
}

#[test]
fn pipfile_lock_parses() {
    let content = r#"{
            "default": {
                "requests": { "version": "==2.31.0" },
                "Flask": { "version": "==3.0.0" }
            },
            "develop": {
                "pytest": { "version": "==7.4.0" }
            }
        }"#;
    let entries = parse_pipfile_lock(content).unwrap();
    let specs: Vec<String> = entries.iter().map(|e| e.spec()).collect();
    assert!(specs.contains(&"requests==2.31.0".to_string()));
    assert!(specs.contains(&"flask==3.0.0".to_string()));
    assert!(specs.contains(&"pytest==7.4.0".to_string()));
}

#[test]
fn poetry_lock_parses() {
    let content = r#"
[[package]]
name = "requests"
version = "2.31.0"
description = ""

[[package]]
name = "Pytest"
version = "7.4.0"
"#;
    let entries = parse_poetry_lock(content).unwrap();
    let specs: Vec<String> = entries.iter().map(|e| e.spec()).collect();
    assert!(specs.contains(&"requests==2.31.0".to_string()));
    assert!(specs.contains(&"pytest==7.4.0".to_string()));
}

#[test]
fn pypi_name_normalization() {
    assert_eq!(normalize_pypi_name("Requests"), "requests");
    assert_eq!(normalize_pypi_name("zope.interface"), "zope-interface");
    assert_eq!(normalize_pypi_name("python__dateutil"), "python-dateutil");
    assert_eq!(normalize_pypi_name("a.b_c-d"), "a-b-c-d");
}

#[test]
fn pom_xml_parses() {
    let content = r#"<?xml version="1.0" encoding="UTF-8"?>
<project xmlns="http://maven.apache.org/POM/4.0.0">
  <modelVersion>4.0.0</modelVersion>
  <groupId>com.example</groupId>
  <artifactId>myapp</artifactId>
  <version>0.1.0-SNAPSHOT</version>

  <dependencyManagement>
    <dependencies>
      <dependency>
        <groupId>org.springframework</groupId>
        <artifactId>spring-bom</artifactId>
        <version>5.3.30</version>
        <type>pom</type>
        <scope>import</scope>
      </dependency>
    </dependencies>
  </dependencyManagement>

  <dependencies>
    <!-- pinned, registry-resolved -->
    <dependency>
      <groupId>com.fasterxml.jackson.core</groupId>
      <artifactId>jackson-databind</artifactId>
      <version>2.17.0</version>
    </dependency>
    <dependency>
      <groupId>org.apache.logging.log4j</groupId>
      <artifactId>log4j-core</artifactId>
      <version>2.20.0</version>
    </dependency>
    <!-- ${prop} version → skipped -->
    <dependency>
      <groupId>org.junit.jupiter</groupId>
      <artifactId>junit-jupiter</artifactId>
      <version>${junit.version}</version>
    </dependency>
    <!-- version range → skipped -->
    <dependency>
      <groupId>commons-lang</groupId>
      <artifactId>commons-lang</artifactId>
      <version>[2.6,3.0)</version>
    </dependency>
    <!-- no version (inherits from parent/bom) → skipped -->
    <dependency>
      <groupId>org.springframework</groupId>
      <artifactId>spring-core</artifactId>
    </dependency>
  </dependencies>
</project>"#;
    let entries = parse_pom_xml(content).unwrap();
    let specs: Vec<String> = entries.iter().map(|e| e.spec()).collect();
    assert!(specs.contains(&"com.fasterxml.jackson.core:jackson-databind@2.17.0".to_string()));
    assert!(specs.contains(&"org.apache.logging.log4j:log4j-core@2.20.0".to_string()));
    // dependencyManagement → not gated.
    assert!(!specs.iter().any(|s| s.contains("spring-bom")));
    // ${prop} version → skipped.
    assert!(!specs.iter().any(|s| s.contains("junit-jupiter")));
    // version range → skipped.
    assert!(!specs.iter().any(|s| s.contains("commons-lang")));
    // missing <version> → skipped.
    assert!(!specs.iter().any(|s| s.contains("spring-core")));
}

#[test]
fn cargo_lock_parses() {
    let content = r#"
version = 3

[[package]]
name = "myapp"
version = "0.1.0"
dependencies = ["serde"]

[[package]]
name = "serde"
version = "1.0.219"
source = "registry+https://github.com/rust-lang/crates.io-index"
checksum = "abc"

[[package]]
name = "anyhow"
version = "1.0.102"
source = "sparse+https://index.crates.io/"
checksum = "def"

[[package]]
name = "private-lib"
version = "0.1.0"
source = "git+https://github.com/example/private-lib.git#deadbeef"
"#;
    let entries = parse_cargo_lock(content).unwrap();
    let specs: Vec<String> = entries.iter().map(|e| e.spec()).collect();
    // Workspace crate (no `source`) → skipped.
    assert!(!specs.iter().any(|s| s.starts_with("myapp@")));
    // crates.io registry entries → kept.
    assert!(specs.contains(&"serde@1.0.219".to_string()));
    assert!(specs.contains(&"anyhow@1.0.102".to_string()));
    // git-sourced crate → skipped.
    assert!(!specs.iter().any(|s| s.starts_with("private-lib@")));
}

#[test]
fn gemfile_lock_parses() {
    let content = "GEM\n  remote: https://rubygems.org/\n  specs:\n    rack (3.1.0)\n    rack-test (2.1.0)\n      rack (>= 1.3)\n    nokogiri (1.16.0)\n    nokogiri (1.16.0-x86_64-linux)\n\nGIT\n  remote: https://github.com/foo/bar.git\n  revision: deadbeef\n  specs:\n    bar (0.1.0)\n\nDEPENDENCIES\n  rack\n  rack-test\n\nBUNDLED WITH\n   2.4.0\n";
    let entries = parse_gemfile_lock(content).unwrap();
    let specs: Vec<String> = entries.iter().map(|e| e.spec()).collect();
    // GEM block, registry-resolved, plain version → kept.
    assert!(specs.contains(&"rack@3.1.0".to_string()));
    assert!(specs.contains(&"rack-test@2.1.0".to_string()));
    assert!(specs.contains(&"nokogiri@1.16.0".to_string()));
    // platform-suffixed variant → skipped (we have the portable
    // entry above).
    assert!(!specs.iter().any(|s| s.contains("x86_64-linux")));
    // Transitive dep declarations (indented deeper) with version
    // constraints → skipped (we only gate pinned resolutions).
    assert!(!specs.iter().any(|s| s.starts_with("rack@>=")));
    // GIT-sourced gem → skipped (not on registry).
    assert!(!specs.iter().any(|s| s.starts_with("bar@")));
}

#[test]
fn parse_filters_workspace_and_link_versions() {
    let entries = vec![
        LockfileEntry {
            ecosystem: Ecosystem::Npm,
            name: "real".to_string(),
            version: "1.0.0".to_string(),
        },
        LockfileEntry {
            ecosystem: Ecosystem::Npm,
            name: "linked".to_string(),
            version: "link:../foo".to_string(),
        },
        LockfileEntry {
            ecosystem: Ecosystem::Npm,
            name: "ws".to_string(),
            version: "workspace:*".to_string(),
        },
    ];
    let kept: Vec<_> = entries
        .into_iter()
        .filter(|e| {
            !e.version.starts_with("file:")
                && !e.version.starts_with("link:")
                && !e.version.starts_with("workspace:")
        })
        .collect();
    assert_eq!(kept.len(), 1);
    assert_eq!(kept[0].name, "real");
}

fn entry(ecosystem: Ecosystem, name: &str, version: &str) -> LockfileEntry {
    LockfileEntry { ecosystem, name: name.to_string(), version: version.to_string() }
}

fn specs_of(entries: &[LockfileEntry]) -> Vec<String> {
    entries.iter().map(|e| e.spec()).collect()
}

#[test]
fn every_name_has_its_format() {
    let cases = [
        ("package-lock.json", LockfileKind::Npm),
        ("npm-shrinkwrap.json", LockfileKind::Npm),
        ("pnpm-lock.yaml", LockfileKind::Pnpm),
        ("pnpm-lock.yml", LockfileKind::Pnpm),
        ("yarn.lock", LockfileKind::YarnV1),
        ("requirements.txt", LockfileKind::PyRequirements),
        ("requirements.lock", LockfileKind::PyRequirements),
        ("constraints.txt", LockfileKind::PyRequirements),
        ("Pipfile.lock", LockfileKind::PyPipfileLock),
        ("poetry.lock", LockfileKind::PyPoetryLock),
        ("uv.lock", LockfileKind::PyUvLock),
        ("pdm.lock", LockfileKind::PyPdmLock),
        ("Gemfile.lock", LockfileKind::Gemfile),
        ("gems.locked", LockfileKind::Gemfile),
        ("Cargo.lock", LockfileKind::Cargo),
        ("pom.xml", LockfileKind::Pom),
        ("packages.lock.json", LockfileKind::NugetLock),
        ("packages.config", LockfileKind::NugetConfig),
        ("project.assets.json", LockfileKind::NugetAssets),
        ("composer.lock", LockfileKind::Composer),
    ];
    for (name, kind) in cases {
        assert_eq!(detect_kind(name, "").unwrap(), kind);
        assert_eq!(detect_kind(&name.to_uppercase(), "").unwrap(), kind);
        assert!(is_lockfile_name(name));
    }
    assert!(!is_lockfile_name("README.md"));
}

#[test]
fn unknown_name_is_refused_in_lower_case() {
    match parse("Package.JSON", "{}") {
        Err(LockfileError::UnknownName(name)) => assert_eq!(name, "package.json"),
        other => panic!("{other:?}"),
    }
    let message = detect_kind("go.sum", "").unwrap_err().message();
    assert!(message.starts_with("unrecognised lockfile name `go.sum`. Supported: package-lock.json, "));
    assert!(message.ends_with(", composer.lock."));
}

#[test]
fn berry_content_matters_only_for_yarn() {
    let content = "__metadata:\n";
    assert!(matches!(parse("yarn.lock", content), Err(LockfileError::YarnBerry)));
    assert_eq!(detect_kind("pnpm-lock.yaml", content).unwrap(), LockfileKind::Pnpm);
}

#[test]
fn bad_syntax_names_the_document() {
    let cases = [
        ("package-lock.json", "{", "parsing package-lock.json"),
        ("pnpm-lock.yaml", "a: [", "parsing pnpm-lock.yaml"),
        ("Pipfile.lock", "[", "parsing Pipfile.lock"),
        ("poetry.lock", "= 1", "parsing TOML lockfile"),
        ("uv.lock", "= 1", "parsing TOML lockfile"),
        ("pdm.lock", "= 1", "parsing TOML lockfile"),
        ("Cargo.lock", "= 1", "parsing Cargo.lock"),
        ("packages.lock.json", "{", "parsing packages.lock.json"),
        ("project.assets.json", "{", "parsing project.assets.json"),
        ("composer.lock", "{", "parsing composer.lock"),
    ];
    for (name, content, message) in cases {
        match parse(name, content) {
            Err(e) => {
                assert!(matches!(e, LockfileError::Syntax(_, _)));
                assert_eq!(e.message(), message);
                assert_eq!(e.exit_code(), 2);
            }
            Ok(list) => panic!("{name}: {list:?}"),
        }
    }
}

#[test]
fn gate_list_filters_sorts_and_drops_repetitions() {
    let list = gate_list(vec![
        entry(Ecosystem::Npm, "ws", "workspace:*"),
        entry(Ecosystem::Npm, "b", "2.0.0"),
        entry(Ecosystem::Npm, "linked", "link:../foo"),
        entry(Ecosystem::Npm, "a", "1.0.0"),
        entry(Ecosystem::Npm, "b", "10.0.0"),
        entry(Ecosystem::Npm, "a", "1.0.0"),
        entry(Ecosystem::Npm, "f", "file:../f"),
        entry(Ecosystem::Npm, "g", "git+ssh://x"),
        entry(Ecosystem::Npm, "h", "github:x/y"),
        entry(Ecosystem::Npm, "alias", "npm:other@1"),
        entry(Ecosystem::Npm, "url", "https://x/y.tgz"),
        entry(Ecosystem::Npm, "", "1"),
        entry(Ecosystem::Npm, "e", ""),
        entry(Ecosystem::Pypi, "p", "https://x"),
        entry(Ecosystem::Pypi, "q", "1.0"),
        entry(Ecosystem::Rubygems, "a/b", "1.0"),
        entry(Ecosystem::Maven, "nogroup", "1.0"),
        entry(Ecosystem::Maven, "g:a", "(1.0"),
        entry(Ecosystem::Maven, "g:a", "1.0"),
    ]);
    assert_eq!(
        specs_of(&list),
        vec!["a@1.0.0", "b@10.0.0", "b@2.0.0", "q==1.0", "g:a@1.0"]
    );
}

#[test]
fn order_and_repetition_of_entries_do_not_matter() {
    let a = vec![entry(Ecosystem::Cargo, "x", "1"), entry(Ecosystem::Npm, "y", "2")];
    let b = vec![
        entry(Ecosystem::Npm, "y", "2"),
        entry(Ecosystem::Cargo, "x", "1"),
        entry(Ecosystem::Npm, "y", "2"),
    ];
    let once = gate_list(a);
    assert_eq!(once, gate_list(b));
    assert_eq!(gate_list(once.clone()), once);
}

#[test]
fn npm_v1_walks_nested_dependencies() {
    let content = r#"{
        "dependencies": {
            "a": { "version": "1.0.0", "dependencies": { "b": { "version": "2.0.0" } } },
            "c": { "dependencies": { "d": { "version": "3.0.0" } } }
        }
    }"#;
    assert_eq!(specs_of(&parse_npm(content).unwrap()), vec!["a@1.0.0", "b@2.0.0", "d@3.0.0"]);
    let with_links = r#"{ "lockfileVersion": 1, "dependencies": { "l": { "version": "file:../l" }, "a": { "version": "1.0.0" } } }"#;
    assert_eq!(specs_of(&parse("package-lock.json", with_links).unwrap()), vec!["a@1.0.0"]);
}

#[test]
fn npm_name_field_wins_over_the_path() {
    let content = r#"{ "lockfileVersion": 2, "packages": {
        "node_modules/alias": { "name": "real", "version": "1.0.0" },
        "node_modules/x/node_modules/@s/y": { "version": "2.0.0" },
        "node_modules/noversion": {}
    } }"#;
    assert_eq!(specs_of(&parse_npm(content).unwrap()), vec!["real@1.0.0", "@s/y@2.0.0"]);
}

#[test]
fn pnpm_keys_of_every_shape() {
    let cases = [
        ("lodash@4.17.21", Some(("lodash", "4.17.21"))),
        ("/lodash@4.17.21", Some(("lodash", "4.17.21"))),
        ("@types/node@22.5.4", Some(("@types/node", "22.5.4"))),
        ("/react@18.3.1(react-dom@18.3.1)", Some(("react", "18.3.1"))),
        ("/lodash/4.17.21", Some(("lodash", "4.17.21"))),
        ("/@types/node/22.5.4", Some(("@types/node", "22.5.4"))),
        ("lodash", None),
        ("", None),
    ];
    for (key, expected) in cases {
        let got = parse_pnpm_package_key(key);
        let got = got.as_ref().map(|(n, v)| (n.as_str(), v.as_str()));
        assert_eq!(got, expected, "{key}");
    }
}

#[test]
fn pnpm_version_field_wins_over_the_key() {
    let content = "packages:\n  /a@1.0.0:\n    version: 1.0.1\n  /b@2.0.0: {}\n";
    assert_eq!(specs_of(&parse_pnpm(content).unwrap()), vec!["a@1.0.1", "b@2.0.0"]);
}

#[test]
fn yarn_names_keep_their_scope() {
    assert_eq!(parse_yarn_name("lodash@^4"), Some("lodash".to_string()));
    assert_eq!(parse_yarn_name("@types/node@^22"), Some("@types/node".to_string()));
    assert_eq!(parse_yarn_name("@types/node"), None);
    assert_eq!(parse_yarn_name("lodash"), None);
}

#[test]
fn yarn_version_with_a_colon_is_read() {
    let content = "# comment\nlodash@^4:\n  version: 4.17.21\n";
    assert_eq!(specs_of(&parse_yarn_v1(content).unwrap()), vec!["lodash@4.17.21"]);
}

#[test]
fn requirements_lines_are_joined() {
    let content = "Django_Rest==3.1 \\\n    --hash=sha256:aa\nzope.interface == 6.0 # note\n";
    assert_eq!(
        specs_of(&parse_requirements_txt(content).unwrap()),
        vec!["django-rest==3.1", "zope-interface==6.0"]
    );
}

#[test]
fn normal_names_stay_as_they_are() {
    for name in ["zope-interface", "a-b-c-d", "requests", "-foo-", ""] {
        assert_eq!(normalize_pypi_name(name), name);
    }
    assert_eq!(normalize_pypi_name("-_a._.B-"), "-a-b-");
    assert_eq!(normalize_pypi_name("__Foo."), "-foo-");
    let once = normalize_pypi_name("Foo__Bar.Baz");
    assert_eq!(normalize_pypi_name(&once), once);
}

#[test]
fn pypi_names_are_checked() {
    assert!(is_valid_pypi_name("zope.interface"));
    assert!(!is_valid_pypi_name(""));
    assert!(!is_valid_pypi_name("a b"));
    assert!(make_pypi_entry("git+x", "1".to_string()).is_none());
    assert_eq!(make_pypi_entry("A_b", "1".to_string()).unwrap().spec(), "a-b==1");
}

#[test]
fn python_locks_skip_other_sources() {
    let content = r#"
[[package]]
name = "kept"
version = "1.0"

[[package]]
name = "legacy"
version = "1.1"
[package.source]
type = "legacy"

[[package]]
name = "fromgit"
version = "2.0"
[package.source]
type = "git"
"#;
    let expected = vec!["kept==1.0", "legacy==1.1"];
    assert_eq!(specs_of(&parse_poetry_lock(content).unwrap()), expected);
    assert_eq!(specs_of(&parse_uv_lock(content).unwrap()), expected);
    assert_eq!(specs_of(&parse_pdm_lock(content).unwrap()), expected);
}

#[test]
fn uv_lock_skips_what_is_not_from_a_registry() {
    let content = "[[package]]\nname = 'x'\nversion = '1.0'\nsource = { git = 'https://e.com/x?rev=1#1' }\n[[package]]\nname = 'y'\nversion = '2.0'\nsource = { registry = 'https://pypi.org/simple' }\n";
    assert_eq!(specs_of(&parse_uv_lock(content).unwrap()), vec!["y==2.0"]);
    for source in ["editable = '.'", "virtual = '.'", "path = '../z'", "url = 'https://e.com/z.whl'", "directory = 'z'"] {
        let content =
            format!("[[package]]\nname = 'z'\nversion = '3.0'\nsource = {{ {source} }}\n");
        assert!(parse_uv_lock(&content).unwrap().is_empty(), "{source}");
    }
    let untyped = "[[package]]\nname = 'z'\nversion = '3.0'\nsource = { type = '', url = 'u' }\n";
    assert_eq!(specs_of(&parse_poetry_lock(untyped).unwrap()), vec!["z==3.0"]);
}

#[test]
fn packages_config_allows_white_space_around_equals() {
    let config = "<packages><package id = \"A\" version\n=\t'1.0' /><package idx=\"B\" id =\"C\" version= \"2.0\"/><package id version=\"3\"/></packages>";
    assert_eq!(specs_of(&parse_packages_config(config).unwrap()), vec!["A@1.0", "C@2.0"]);
}

#[test]
fn pom_reads_the_top_level_children_of_a_dependency() {
    let content = "<dependency><exclusions><exclusion><groupId>x</groupId><artifactId>y</artifactId></exclusion></exclusions>\
        <groupId>g</groupId><artifactId>a</artifactId><version> 1.0 </version></dependency>";
    assert_eq!(specs_of(&parse_pom_xml(content).unwrap()), vec!["g:a@1.0"]);
    let inherited = "<dependency><groupId>g</groupId><artifactId>a</artifactId>\
        <plugin><version>9</version></plugin></dependency>";
    assert!(parse_pom_xml(inherited).unwrap().is_empty());
}

#[test]
fn pom_comments_are_left_out() {
    let content = "<!-- <dependency><groupId>g</groupId><artifactId>a</artifactId><version>1</version></dependency> -->";
    assert!(parse_pom_xml(content).unwrap().is_empty());
    assert_eq!(strip_xml_comments("a<!-- b -->c<!-- d"), "ac<!-- d");
    assert_eq!(strip_xml_block("1<m>2</m>3<m>4</m>5", "m"), "135");
    assert_eq!(xml_inner_text("<a><b>in</b></a><b>top</b>", "b"), Some("top".to_string()));
    assert_eq!(xml_inner_text("<a>1</a>", "b"), None);
}

#[test]
fn nuget_lockfiles_of_three_kinds() {
    let lock = r#"{ "version": 1, "dependencies": { "net8.0": {
        "Newtonsoft.Json": { "type": "Direct", "resolved": "13.0.3" },
        "My.Lib": { "type": "Project", "resolved": "1.0.0" },
        "NoVersion": { "type": "Direct" }
    } } }"#;
    assert_eq!(specs_of(&parse_nuget_lock(lock).unwrap()), vec!["Newtonsoft.Json@13.0.3"]);
    let assets = r#"{ "targets": { "net8.0": {
        "Newtonsoft.Json/13.0.3": { "type": "package" },
        "My.Lib/1.0.0": { "type": "project" }
    } } }"#;
    assert_eq!(specs_of(&parse_nuget_assets(assets).unwrap()), vec!["Newtonsoft.Json@13.0.3"]);
    let config = "<?xml version=\"1.0\"?>\n<packages>\n  <package id=\"Newtonsoft.Json\" version='13.0.3' targetFramework=\"net48\" />\n  <!-- <package id=\"Old\" version=\"1\" /> -->\n  <package id=\"NoVersion\" />\n</packages>\n";
    assert_eq!(specs_of(&parse_packages_config(config).unwrap()), vec!["Newtonsoft.Json@13.0.3"]);
    for (name, content) in [
        ("packages.lock.json", lock),
        ("project.assets.json", assets),
        ("packages.config", config),
    ] {
        assert_eq!(specs_of(&parse(name, content).unwrap()), vec!["Newtonsoft.Json@13.0.3"]);
    }
}

#[test]
fn composer_lock_reads_both_lists() {
    let content = r#"{
        "packages": [
            { "name": "symfony/console", "version": "v6.4.1" },
            { "name": "meta/pkg", "version": "1.0", "type": "metapackage" },
            { "name": "branch/pkg", "version": "dev-main" }
        ],
        "packages-dev": [ { "name": "phpunit/phpunit", "version": "10.0.0", "type": "library" } ]
    }"#;
    assert_eq!(
        specs_of(&parse_composer_lock(content).unwrap()),
        vec!["symfony/console@v6.4.1", "phpunit/phpunit@10.0.0"]
    );
    assert_eq!(
        specs_of(&parse("composer.lock", content).unwrap()),
        vec!["phpunit/phpunit@10.0.0", "symfony/console@v6.4.1"]
    );
}

#[test]
fn parse_reads_every_text_format() {
    assert_eq!(specs_of(&parse("yarn.lock", "b@^1:\n  version \"1.0.0\"\na@^1:\n  version \"1.1.0\"\n").unwrap()), vec!["a@1.1.0", "b@1.0.0"]);
    assert_eq!(specs_of(&parse("requirements.txt", "b==1\na==2\nb==1\n").unwrap()), vec!["a==2", "b==1"]);
    assert_eq!(specs_of(&parse("Gemfile.lock", "GEM\n  specs:\n    rack (3.1.0)\n").unwrap()), vec!["rack@3.1.0"]);
    assert_eq!(specs_of(&parse("Cargo.lock", "[[package]]\nname = \"a\"\nversion = \"1.0.0\"\nsource = \"registry+x\"\n").unwrap()), vec!["a@1.0.0"]);
    assert_eq!(specs_of(&parse("Pipfile.lock", "{\"default\":{\"A.b\":{\"version\":\"==1\"}}}").unwrap()), vec!["a-b==1"]);
    assert_eq!(specs_of(&parse("pnpm-lock.yaml", "packages:\n  /a@1.0.0: {}\n").unwrap()), vec!["a@1.0.0"]);
}

#[test]
fn requirement_lines_of_every_shape() {
    let cases = [
        ("requests==2.31.0", Some("requests==2.31.0")),
        ("Flask[async] == 3.0.0 ; python_version >= \"3.10\"", Some("flask==3.0.0")),
        ("torch===2.5.0", Some("torch==2.5.0")),
        ("a==1.0 --hash=sha256:aa", Some("a==1.0")),
        ("a==\"1.0\"", Some("a==1.0")),
        ("a", None),
        ("a>=1.0", None),
        ("a~=1.0", None),
        ("a ; python_version == \"3.8\"", None),
        ("a==1.0 --hash=sha256:aa;bb", Some("a==1.0")),
        ("a==1.0,!=1.1", None),
        ("a==1.0 b", None),
        ("==1.0", None),
        ("a==", None),
        ("a b==1.0", None),
    ];
    for (line, expected) in cases {
        let got = parse_requirements_line(line).map(|e| e.spec());
        assert_eq!(got.as_deref(), expected, "{line}");
    }
}
