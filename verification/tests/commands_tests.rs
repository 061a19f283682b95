use osint::commands::{
    amass, certs, dns, harvester, headers, ipinfo, ports, recon, report, subfinder, wayback, whois,
};
use osint::http::HttpError;
use osint::shell::ShellError;
use osint::style::{Hue, Look, Span, Tone};
use osint::sweep;

fn plain(spans: &[Span]) -> String {
    spans.iter().map(|s| s.text.as_str()).collect()
}

const TITLE: Look = Look::BoldFg(Tone::Dark(Hue::Cyan));

#[test]
fn whois_summary_keeps_fields() {
    let out = "Domain Name: EXAMPLE.COM\n   Registrar: Foo Inc.  \nNoise: x\nname server: NS1.EXAMPLE.COM\n";
    let r = whois::run("example.com", false, out);
    assert_eq!(r[0].look, TITLE);
    assert_eq!(
        plain(&r),
        "WHOIS summary for example.com\nDomain Name: EXAMPLE.COM\nname server: NS1.EXAMPLE.COM\n"
    );
}

#[test]
fn whois_falls_back_to_raw() {
    let out = "nothing useful\n";
    let r = whois::run("example.com", false, out);
    assert_eq!(
        plain(&r),
        "WHOIS summary for example.com\n(no structured fields matched — showing raw output)\n\nnothing useful\n"
    );
    let raw = whois::run("example.com", true, out);
    assert_eq!(raw, vec![Span { text: out.to_string(), look: Look::Plain }]);
}

#[test]
fn whois_invocation() {
    let inv = whois::invocation("example.com");
    assert_eq!(inv.bin, "whois");
    assert_eq!(inv.args, vec!["example.com"]);
}

#[test]
fn dns_report_sections() {
    let answers = vec![
        Ok("93.184.216.34\n".to_string()),
        Ok("".to_string()),
        Err(ShellError::Io("boom".to_string())),
        Ok("a.iana-servers.net.\nb.iana-servers.net.\n".to_string()),
        Ok("   \n".to_string()),
    ];
    let r = dns::run("example.com", &answers);
    assert_eq!(
        plain(&r),
        "DNS records for example.com\nA\n  93.184.216.34\nAAAA\n  (none)\nMX\n  (error: boom)\nNS\n  a.iana-servers.net.\n  b.iana-servers.net.\nTXT\n  (none)\n"
    );
    assert_eq!(r[2].look, Look::BoldFg(Tone::Dark(Hue::Yellow)));
    let q = dns::queries("example.com");
    assert_eq!(q.len(), 5);
    assert_eq!(q[1].args, vec!["+short", "AAAA", "example.com"]);
}

#[test]
fn ports_table() {
    let out = "Starting Nmap\nPORT    STATE  SERVICE\n22/tcp  open   ssh\n80/tcp  closed http\n\nNmap done\n";
    let r = ports::run("h", out);
    assert_eq!(
        plain(&r),
        "Open ports on h\n  PORT    STATE  SERVICE\n  22/tcp  open   ssh\n  80/tcp  closed http\n"
    );
    assert_eq!(r[3].look, Look::Bold);
    assert_eq!(r[6].look, Look::Fg(Tone::Dark(Hue::Green)));
    assert_eq!(r[9].look, Look::Plain);
    let none = ports::run("h", "Host seems down\n");
    assert_eq!(plain(&none), "Open ports on h\n  (no open ports found in scanned range)\n");
    let inv = ports::invocation("h", true);
    assert_eq!(inv.args, vec!["-F", "-T4", "h"]);
    assert_eq!(inv.timeout_secs, 90);
    let full = ports::invocation("h", false);
    assert_eq!(full.args, vec!["-T4", "h"]);
    assert_eq!(full.timeout_secs, 240);
}

#[test]
fn subfinder_and_amass_listings() {
    let r = subfinder::run("x.com", "a.x.com\n\n  \nb.x.com\n");
    assert_eq!(plain(&r), "subfinder results for x.com\n  2 subdomains found:\n  a.x.com\n  b.x.com\n");
    let e = subfinder::run("x.com", "\n");
    assert_eq!(plain(&e), "subfinder results for x.com\n  (no subdomains found)\n");
    let a = amass::run("x.com", "x.com\n");
    assert_eq!(plain(&a), "amass (passive) results for x.com\n  1 assets found:\n  x.com\n");
    assert_eq!(amass::invocation("x.com").args, vec!["enum", "-passive", "-d", "x.com"]);
    assert_eq!(subfinder::invocation("x.com").args, vec!["-d", "x.com", "-silent"]);
}

#[test]
fn harvester_report_and_sources() {
    assert_eq!(harvester::sources_or_default(None), harvester::DEFAULT_SOURCES);
    assert_eq!(harvester::sources_or_default(Some("bing")), "bing");
    let r = harvester::run("x.com", None, "emails: none\n");
    assert_eq!(
        plain(&r),
        "theHarvester results for x.com (sources: bing,duckduckgo,crtsh,otx,hackertarget,rapiddns)\nemails: none\n"
    );
    let inv = harvester::invocation("x.com", Some("otx"));
    assert_eq!(inv.args, vec!["-d", "x.com", "-b", "otx"]);
    assert_eq!(inv.timeout_secs, 90);
}

#[test]
fn certs_unique_sorted_names() {
    let body = r#"[{"name_value":"*.B.x.com\nb.x.com"},{"name_value":"a.x.com"},{"id":3},{"name_value":"*.*.c.x.com\n  \n"}]"#;
    let r = certs::run("x.com", body);
    assert_eq!(
        plain(&r),
        "Certificate transparency results for x.com\n  3 unique names found:\n  a.x.com\n  b.x.com\n  c.x.com\n"
    );
    let none = certs::run("x.com", "[]");
    assert_eq!(plain(&none), "Certificate transparency results for x.com\n  0 names found\n");
    let bad = certs::run("x.com", "<html>");
    assert!(plain(&bad).contains("(crt.sh returned no parseable data"));
    assert_eq!(certs::url("x.com"), "https://crt.sh/?q=%25.x.com&output=json");
}

#[test]
fn wayback_rows() {
    let body = r#"[["original"],["http://x.com/a"],[1],["http://x.com/b"]]"#;
    let r = wayback::run("x.com", 50, body);
    assert_eq!(
        plain(&r),
        "Wayback Machine URLs for x.com (limit 50)\n  2 archived URLs found:\n  http://x.com/a\n  http://x.com/b\n"
    );
    let only_header = wayback::run("x.com", 7, r#"[["original"]]"#);
    assert_eq!(plain(&only_header), "Wayback Machine URLs for x.com (limit 7)\n  0 archived URLs found\n");
    assert_eq!(
        wayback::url("x.com", 50),
        "https://web.archive.org/cdx/search/cdx?url=x.com/*&output=json&fl=original&collapse=urlkey&limit=50"
    );
}

#[test]
fn ipinfo_success() {
    let body = r#"{"status":"success","country":"US","regionName":"CA","city":"LA","isp":"I","org":"O","as":"AS1"}"#;
    let r = ipinfo::run("x.com", "1.2.3.4", "", &Ok(body.to_string()));
    assert_eq!(
        plain(&r),
        "IP info for x.com\n  IP address:    1.2.3.4\n  Reverse DNS:   (none)\n  Country:       US\n  Region/City:   CA, LA\n  ISP:           I\n  Org:           O\n  ASN:           AS1\n"
    );
    assert_eq!(r[3].look, Look::Dimmed);
}

#[test]
fn ipinfo_failures() {
    let fail = ipinfo::run("x", "1.2.3.4", "r.", &Ok(r#"{"status":"fail","message":"private range"}"#.to_string()));
    assert!(plain(&fail).ends_with("  Reverse DNS:   r.\n  Geolocation: private range\n"));
    let missing = ipinfo::run("x", "1", "r", &Ok(r#"{"status":"success"}"#.to_string()));
    assert!(plain(&missing).contains("  Country:       —\n"));
    let junk = ipinfo::run("x", "1", "r", &Ok("nope".to_string()));
    assert!(plain(&junk).ends_with("  Geolocation: (could not parse response)\n"));
    let err = ipinfo::run("x", "1", "r", &Err(HttpError::Malformed { host: "ip-api.com".to_string() }));
    assert!(plain(&err).ends_with("  Geolocation: [skipped] malformed HTTP response from ip-api.com\n"));
}

#[test]
fn ipinfo_resolution() {
    assert!(matches!(ipinfo::resolution("1.2.3.4", true), ipinfo::Resolution::Literal(ip) if ip == "1.2.3.4"));
    match ipinfo::resolution("x.com", false) {
        ipinfo::Resolution::Lookup(q) => {
            assert_eq!(q.bin, "dig");
            assert_eq!(q.args, vec!["+short", "A", "x.com"]);
        }
        ipinfo::Resolution::Literal(_) => panic!("a host name needs a lookup"),
    }
    assert_eq!(ipinfo::resolve("x", &Ok("\n 1.2.3.4 \n5.6.7.8\n".to_string())), Ok("1.2.3.4".to_string()));
    let unresolved = ipinfo::resolve("x.com", &Ok("\n".to_string())).unwrap_err();
    assert_eq!(unresolved.message(), "could not resolve x.com to an IPv4 address");
    let lookup = ipinfo::resolve("x", &Err(ShellError::Io("io".to_string()))).unwrap_err();
    assert_eq!(lookup, ipinfo::ResolveError::Lookup(ShellError::Io("io".to_string())));
    assert_eq!(ipinfo::reverse_name(&Ok(" host.example. \nother\n".to_string())), "host.example.");
    assert_eq!(ipinfo::reverse_name(&Err(ShellError::Io("x".to_string()))), "(none)");
    assert_eq!(
        ipinfo::geo_path("1.2.3.4"),
        "/json/1.2.3.4?fields=status,message,country,regionName,city,isp,org,as,query"
    );
}

#[test]
fn headers_final_block_and_notable() {
    let out = "HTTP/1.1 301 Moved\r\nLocation: https://x/\r\n\r\nHTTP/2 200\r\nServer: nginx\r\ncontent-type: text/html\r\n\r\n";
    let r = headers::run("x", true, &Ok(out.to_string())).unwrap();
    assert_eq!(plain(&r), "HTTP headers for https://x\n  HTTP/2 200\n  Server: nginx\n  content-type: text/html\n");
    assert_eq!(r[4].look, Look::Fg(Tone::Dark(Hue::Yellow)));
    let quiet = headers::run("x", false, &Ok("HTTP/1.1 200 OK\r\nDate: now\r\n".to_string())).unwrap();
    assert_eq!(
        plain(&quiet),
        "HTTP headers for http://x\n  HTTP/1.1 200 OK\n  Date: now\n  (no notable fingerprinting headers exposed)\n"
    );
    let none = headers::run("x", false, &Ok("  \n".to_string())).unwrap_err();
    assert_eq!(none.message(), "no response from x over HTTPS or HTTP");
    assert!(headers::needs_fallback(&Err(ShellError::Io("x".to_string()))));
    assert!(!headers::needs_fallback(&Ok(String::new())));
    assert_eq!(headers::fetch("https://x").args.len(), 9);
}

#[test]
fn recon_script_and_report() {
    let s = recon::script("x.com", "ws", &[]);
    assert_eq!(
        s,
        "workspaces select ws\nmodules load recon/domains-hosts/hackertarget\noptions set SOURCE x.com\nrun\nback\nshow hosts\nshow domains\nexit\n"
    );
    let two = recon::script("x", "w", &["a".to_string(), "b".to_string()]);
    assert_eq!(
        two,
        "workspaces select w\nmodules load a\noptions set SOURCE x\nrun\nback\nmodules load b\noptions set SOURCE x\nrun\nback\nshow hosts\nshow domains\nexit\n"
    );
    assert_eq!(recon::script_file_name("x.com"), "osint-recon-x.com.rc");
    assert_eq!(recon::script_file_name("a/b"), "osint-recon-a/b.rc");
    let inv = recon::invocation("ws", "/tmp/s.rc");
    assert_eq!(inv.args, vec!["-w", "ws", "-r", "/tmp/s.rc", "--no-check"]);
    let failed = recon::run("x", "ws", "/tmp/s.rc", &Err(ShellError::Io("gone".to_string())));
    assert_eq!(
        plain(&failed),
        "recon-ng results for x (workspace: ws)\nrecon-ng could not be run automatically.\ngone\n\nYou can still drive it manually with the generated script:\n  recon-ng -w ws -r /tmp/s.rc --no-check\n"
    );
    assert_eq!(failed[2].look, Look::Fg(Tone::Dark(Hue::Red)));
}

#[test]
fn report_body_and_name() {
    let body = report::body("x.com", "Mon, 1 Jan 2024 00:00:00 +0000", &[("WHOIS", "w\n".to_string())]);
    assert_eq!(
        body,
        format!(
            "OSINT report for x.com\nGenerated: Mon, 1 Jan 2024 00:00:00 +0000\n{}\n\n\n## WHOIS\n{}\n\nw\n\n",
            "=".repeat(60),
            "-".repeat(40)
        )
    );
    assert_eq!(report::file_name("x.com", "20240101-000000"), "x.com-20240101-000000.txt");
    assert_eq!(report::file_name("../x", "20240101-000000"), ".._x-20240101-000000.txt");
    assert_eq!(report::file_name("a/../../etc/x", "t/1"), "a_.._.._etc_x-t_1.txt");
}

#[test]
fn sweep_plan_and_dashboard() {
    let quick = sweep::plan(false);
    assert_eq!(quick.len(), 7);
    assert_eq!(quick[2].lookup, sweep::Lookup::Ip);
    assert_eq!((quick[2].icon, quick[2].label, quick[2].title), ("📡", "IP / GEOLOCATION", "IP / Geolocation"));
    let deep = sweep::plan(true);
    assert_eq!(deep.len(), 11);
    assert_eq!(deep[9].lookup, sweep::Lookup::Amass);
    assert_eq!(deep[9].tone, Tone::Bright(Hue::Blue));
    let titles: Vec<&str> = deep.iter().map(|s| s.title).collect();
    assert_eq!(titles, sweep::section_titles(true));
    assert_eq!(sweep::box_for(sweep::Lookup::Whois), ("🗄️", "WHOIS", Tone::Dark(Hue::Blue)));
    let mut outputs: Vec<String> = vec![String::new(); 11];
    outputs[3] = "  4 unique names found:\n".to_string();
    outputs[6] = "22/tcp open ssh\n".to_string();
    outputs[7] = "  2 subdomains found:\n".to_string();
    outputs[9] = "  5 assets found:\n".to_string();
    outputs[10] = "  9 archived URLs found:\n".to_string();
    assert_eq!(
        sweep::dashboard(&outputs, true),
        vec![
            ("open ports", 1),
            ("cert-discovered names", 4),
            ("subdomains", 2),
            ("passive assets", 5),
            ("archived URLs", 9)
        ]
    );
    outputs.truncate(7);
    assert_eq!(sweep::dashboard(&outputs, false), vec![("open ports", 1), ("cert-discovered names", 4)]);
}

#[test]
fn sweep_titles_and_counts() {
    assert_eq!(sweep::section_titles(false).len(), 7);
    assert_eq!(sweep::section_titles(true)[10], "Wayback Machine");
    let counts = sweep::summary_counts(
        "22/tcp open ssh\n",
        "  4 unique names found:\n",
        Some(sweep::DeepOutputs {
            subfinder: "  2 subdomains found:\n",
            amass: "  (no assets found)\n",
            wayback: "  9 archived URLs found:\n",
        }),
    );
    assert_eq!(
        counts,
        vec![
            ("open ports", 1),
            ("cert-discovered names", 4),
            ("subdomains", 2),
            ("passive assets", 0),
            ("archived URLs", 9)
        ]
    );
}

#[test]
fn dashboard_reads_back_drawn_reports() {
    let certs_body = r#"[{"name_value":"a.x.com\nb.x.com"},{"name_value":"a.x.com"}]"#;
    let wayback_body = r#"[["original"],["http://x.com/a"],["http://x.com/b"],["http://x.com/c"]]"#;
    let nmap = "Starting Nmap\nPORT    STATE  SERVICE\n22/tcp  open   ssh\n80/tcp  closed http\n443/tcp open   https\n\nNmap done\n";
    for target in ["x.com", "x.com\n7 things\x1b[0m!"] {
        for colour in [true, false] {
            colored::control::set_override(colour);
            let certs_text = osint::style::render(&certs::run(target, certs_body));
            let sub_text = osint::style::render(&subfinder::run(target, "a.x.com\nb.x.com\n\nc.x.com\n"));
            let amass_text = osint::style::render(&amass::run(target, " \n"));
            let wayback_text = osint::style::render(&wayback::run(target, 50, wayback_body));
            let ports_text = osint::style::render(&ports::run(target, nmap));
            let counts = sweep::summary_counts(
                &ports_text,
                &certs_text,
                Some(sweep::DeepOutputs { subfinder: &sub_text, amass: &amass_text, wayback: &wayback_text }),
            );
            assert_eq!(
                counts,
                vec![
                    ("open ports", 2),
                    ("cert-discovered names", 2),
                    ("subdomains", 3),
                    ("passive assets", 0),
                    ("archived URLs", 3)
                ]
            );
        }
    }
    let unparsed = osint::style::render(&certs::run("x.com", "<html>"));
    assert_eq!(osint::ui::extract_count(&unparsed, "unique names found"), 0);
}
