use modkei_core::report::{generate, report_serve_dir};

#[test]
fn served_files_sit_beside_the_report() {
    assert_eq!(report_serve_dir("out/report.html"), "out/report-files");
    assert_eq!(report_serve_dir("report.html"), "./report-files");
    assert_eq!(report_serve_dir("/tmp/r.tar.gz"), "/tmp/r.tar-files");
    assert_eq!(report_serve_dir("/"), "./modkei-report-files");
    assert_eq!(report_serve_dir(".hidden"), "./.hidden-files");
}

#[test]
fn the_report_page_forwards_to_its_files() {
    let layout = generate("out/graph.html");
    assert_eq!(layout.serve_dir, "out/graph-files");
    assert_eq!(
        layout.page,
        "<!doctype html><html><head><meta http-equiv=\"refresh\" content=\"0;url=./graph-files/\"/></head><body></body></html>"
    );
}
