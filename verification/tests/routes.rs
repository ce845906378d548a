use refracted::cnc::routes::{
    probe_dump_filename_of, sanitize_probe_dump_filename, try_handle_cnc_post, try_handle_http_request, CncPostRoute,
};

#[test]
fn cnc_routes_by_method_and_path() {
    let r = try_handle_cnc_post("GET", "/cnc/online-count").unwrap();
    assert_eq!(r.route, CncPostRoute::OnlineCount);
    assert!(!r.is_post);
    assert_eq!(r.query, None);
    let r = try_handle_cnc_post("post", "/cnc/player-attrs?gid=3&pid=0").unwrap();
    assert_eq!(r.route, CncPostRoute::PlayerAttrs);
    assert!(r.is_post);
    assert_eq!(r.query.as_deref(), Some("gid=3&pid=0"));
    assert!(try_handle_cnc_post("GET", "/cnc/player-attrs").is_none());
    assert!(try_handle_cnc_post("PUT", "/cnc/online-count").is_none());
    assert!(try_handle_cnc_post("GET", "/cnc/unknown").is_none());
    let r = try_handle_cnc_post("GET", "///cnc/select-map?path=x").unwrap();
    assert_eq!(r.route, CncPostRoute::SelectMap);
    assert_eq!(try_handle_cnc_post("POST", "/cnc/probe-dump").unwrap().route, CncPostRoute::ProbeDump);
    assert!(try_handle_cnc_post("GET", "/cnc/probe-dump").is_none());
}

#[test]
fn probe_dump_names_are_sanitized() {
    assert_eq!(sanitize_probe_dump_filename("probe log.txt"), "probe_log.txt");
    assert_eq!(sanitize_probe_dump_filename("../etc/passwd"), ".._etc_passwd");
    assert_eq!(sanitize_probe_dump_filename("50%off"), "50off");
    assert_eq!(sanitize_probe_dump_filename(""), "cnc-probe-log.txt");
    assert_eq!(sanitize_probe_dump_filename("."), "cnc-probe-log.txt");
    assert_eq!(sanitize_probe_dump_filename("café.log"), "café.log");
    let long: String = std::iter::repeat('a').take(200).collect();
    assert_eq!(sanitize_probe_dump_filename(&long).len(), 120);
}

#[test]
fn probe_dump_name_from_query() {
    assert_eq!(probe_dump_filename_of(None), "cnc-probe-log.txt");
    assert_eq!(probe_dump_filename_of(Some("x=1")), "cnc-probe-log.txt");
    assert_eq!(probe_dump_filename_of(Some("x=1&filename=a%20b.txt")), "a_b.txt");
    assert_eq!(probe_dump_filename_of(Some("filename=%41%42.log")), "AB.log");
    assert_eq!(probe_dump_filename_of(Some("filename=%FF.log")), "_.log");
}

#[test]
fn static_files_resolve_inside_the_data_dir() {
    let r = try_handle_http_request("GET", "/cnc/data/shell/index.html?v=2").unwrap();
    assert_eq!(r.relative_path, "shell/index.html");
    assert!(!r.is_head);
    let r = try_handle_http_request("HEAD", "/cncg2/./ui//main.js").unwrap();
    assert_eq!(r.relative_path, "cncg2/ui/main.js");
    assert!(r.is_head);
    let r = try_handle_http_request("GET", "/config.cncg2").unwrap();
    assert_eq!(r.relative_path, "config.cncg2/cncprod150805.cfg");
    assert!(try_handle_http_request("GET", "/cnc/data/../secret").is_none());
    assert!(try_handle_http_request("POST", "/cnc/data/x").is_none());
    assert!(try_handle_http_request("GET", "/elsewhere/x").is_none());
    assert!(try_handle_http_request("GET", "/cnc/data/").is_none());
}
