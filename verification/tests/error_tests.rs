use loadsmith_lab::error::LabError;
use loadsmith_lab::origin::Kind;

fn s(x: &str) -> String {
    x.to_string()
}

#[test]
fn error_messages() {
    assert_eq!(LabError::NoSuchOrigin(s("team")).message(), "no such origin: 'team'");
    assert_eq!(
        LabError::UnknownOrigin(s("team")).message(),
        "no such origin: 'team' (see `loadsmith-lab origin list`)"
    );
    assert_eq!(LabError::NotInstalled(s("o"), s("n")).message(), "o/n is not installed");
    assert_eq!(
        LabError::ItemNotInstalled(Kind::Cases, s("catalog/pg")).message(),
        "cases 'catalog/pg' is not installed — run `loadsmith-lab install catalog/pg`"
    );
    assert_eq!(LabError::NothingSelected(s("cases")).message(), "no matching cases found");
    assert_eq!(
        LabError::LoadsmithImageUnavailable(s("loadsmith:0.4"), s("manifest unknown")).message(),
        "loadsmith image 'loadsmith:0.4' not found locally and pull failed: manifest unknown\n\
         hint: pass --loadsmith <binary | project dir> to run a local core, or publish/tag the image first"
    );
    assert_eq!(
        LabError::ManifestItemMissing(Kind::Images, s("pg"), s("/c/images/pg"), s("catalog")).message(),
        "manifest lists images.pg but /c/images/pg is missing in origin 'catalog'"
    );
    assert_eq!(LabError::ContainerFailed(s("validate hook"), -1).message(), "validate hook failed (exit -1)");
    assert_eq!(LabError::ContainerFailed(s("build"), 137).message(), "build failed (exit 137)");
    assert_eq!(LabError::NoSelection(true).message(), "specify --select <origin>/<name> or --all");
    assert_eq!(LabError::NoSelection(false).message(), "specify --select <name> or --all");
    assert_eq!(
        LabError::ItemNotFound(Kind::Bundles, s("dev/smoke"), s("/work/dev/bundles/smoke")).message(),
        "bundles 'dev/smoke' not found at /work/dev/bundles/smoke (local origin)"
    );
}
