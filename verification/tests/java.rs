use dep_lens_core::model::{DependencyType, Ecosystem};
use dep_lens_core::scanner::java::{
    m2_pom_path, parse_gradle_build_file, parse_gradle_lockfile, parse_pom_dependencies,
    parse_pom_license,
};

const POM: &str = r#"<project>
  <dependencies>
    <dependency>
      <groupId>com.google.guava</groupId>
      <artifactId>guava</artifactId>
      <version>33.0.0-jre</version>
    </dependency>
    <dependency>
      <groupId>org.junit.jupiter</groupId>
      <artifactId>junit-jupiter</artifactId>
      <version>5.10.0</version>
      <scope>test</scope>
    </dependency>
    <dependency>
      <groupId>org.managed</groupId>
      <artifactId>no-version</artifactId>
    </dependency>
    <dependency>
      <groupId>org.props</groupId>
      <artifactId>prop-version</artifactId>
      <version>${some.version}</version>
    </dependency>
  </dependencies>
</project>"#;

#[test]
fn parses_pom_dependencies() {
    let packages = parse_pom_dependencies(POM);
    let names: Vec<&str> = packages.iter().map(|p| p.name.as_str()).collect();
    assert_eq!(
        names,
        vec!["com.google.guava:guava", "org.junit.jupiter:junit-jupiter"]
    );
    assert_eq!(packages[0].version, "33.0.0-jre");
    assert_eq!(packages[0].ecosystem, Ecosystem::Java);
    assert_eq!(packages[0].dependency_type, DependencyType::Direct);
}

#[test]
fn parses_gradle_lockfile() {
    let raw = "# This is a Gradle generated file\ncom.squareup.okhttp3:okhttp:4.12.0=compileClasspath,runtimeClasspath\norg.jetbrains.kotlin:kotlin-stdlib:1.9.22=compileClasspath\nempty=annotationProcessor\n";
    let packages = parse_gradle_lockfile(raw);
    let names: Vec<&str> = packages.iter().map(|p| p.name.as_str()).collect();
    assert_eq!(
        names,
        vec![
            "com.squareup.okhttp3:okhttp",
            "org.jetbrains.kotlin:kotlin-stdlib"
        ]
    );
    assert_eq!(packages[0].version, "4.12.0");
}

#[test]
fn parses_gradle_build_file_coordinates() {
    let raw = r#"
dependencies {
    implementation("com.squareup.okhttp3:okhttp:4.12.0")
    testImplementation 'org.junit.jupiter:junit-jupiter:5.10.0'
    implementation libs.guava
    implementation project(':core')
    implementation("com.example:versioned:$appVersion")
}
"#;
    let packages = parse_gradle_build_file(raw);
    let names: Vec<&str> = packages.iter().map(|p| p.name.as_str()).collect();
    assert_eq!(
        names,
        vec![
            "com.squareup.okhttp3:okhttp",
            "org.junit.jupiter:junit-jupiter"
        ]
    );
    assert_eq!(packages[0].version, "4.12.0");
    assert_eq!(packages[0].dependency_type, DependencyType::Direct);
}

#[test]
fn parses_pom_license_block() {
    let raw = "<project><licenses><license><name>The Apache Software License, Version 2.0</name><url>x</url></license></licenses></project>";
    assert_eq!(
        parse_pom_license(raw),
        Some("The Apache Software License, Version 2.0".to_string())
    );
    assert_eq!(parse_pom_license("<project></project>"), None);
}

#[test]
fn m2_path_follows_the_repository_layout() {
    assert_eq!(
        m2_pom_path("com.google.guava:guava", "33.0.0-jre"),
        Some(vec![
            "com".to_string(),
            "google".to_string(),
            "guava".to_string(),
            "guava".to_string(),
            "33.0.0-jre".to_string(),
            "guava-33.0.0-jre.pom".to_string(),
        ])
    );
    assert_eq!(m2_pom_path("no-colon", "1.0"), None);
}

#[test]
fn gradle_lockfile_lines_need_three_coordinates() {
    let raw = "a:b=x\n\n# c:d:e=f\na:b:c:d=x\n  g:h:1.0  \n";
    let packages = parse_gradle_lockfile(raw);
    assert_eq!(packages.len(), 1);
    assert_eq!(packages[0].name, "g:h");
    assert_eq!(packages[0].version, "1.0");
    assert_eq!(packages[0].dependency_type, DependencyType::Transitive);
}

#[test]
fn pom_license_name_must_not_be_blank() {
    assert_eq!(
        parse_pom_license("<licenses><license><name>  </name></license></licenses>"),
        None
    );
    assert_eq!(
        parse_pom_license("<licenses><license><name> MIT </name></license></licenses>"),
        Some("MIT".to_string())
    );
}
