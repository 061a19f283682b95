use osint::shell::{curl, package_for, run, run_soft, run_timeout, Poll, ShellError, DEFAULT_TIMEOUT_SECS};

#[test]
fn package_names() {
    assert_eq!(package_for("dig"), "dnsutils");
    assert_eq!(package_for("theHarvester"), "theharvester");
    assert_eq!(package_for("nmap"), "nmap");
    assert_eq!(package_for("digg"), "digg");
}

#[test]
fn not_installed_names_the_package() {
    let e = run("dig", &["+short", "A", "x"]).not_installed();
    assert_eq!(
        e.message(),
        "'dig' is not installed or not on PATH. Install it with: sudo apt install dnsutils"
    );
}

#[test]
fn invocations() {
    let inv = run("whois", &["example.com"]);
    assert_eq!(inv.bin, "whois");
    assert_eq!(inv.args, vec!["example.com".to_string()]);
    assert_eq!(inv.timeout_secs, DEFAULT_TIMEOUT_SECS);
    assert_eq!(run_timeout("nmap", &["-T4", "h"], 240).timeout_secs, 240);
    let c = curl("https://x/");
    assert_eq!(c.bin, "curl");
    assert_eq!(c.args, vec!["-s", "--max-time", "12", "https://x/"]);
    assert_eq!(c.timeout_secs, 18);
}

#[test]
fn poll_decisions() {
    let inv = run_timeout("nmap", &[], 2);
    assert_eq!(inv.poll(Some(true), 0), Poll::Exited(true));
    assert_eq!(inv.poll(Some(false), 9_000_000_000), Poll::Exited(false));
    assert_eq!(inv.poll(None, 2_000_000_000), Poll::Wait);
    assert_eq!(inv.poll(None, 2_000_000_001), Poll::Kill);
}

#[test]
fn timed_out_message() {
    let inv = run_timeout("nmap", &[], 90);
    assert_eq!(
        inv.timed_out().message(),
        "'nmap' timed out after 90s (target may be unreachable, or silently dropping/filtering the scan)"
    );
}

#[test]
fn finish_reads_output_or_error() {
    let inv = run("whois", &[]);
    assert_eq!(inv.finish(true, b"record\n", b""), Ok("record\n".to_string()));
    let err = inv.finish(false, b"", b"no match\n").unwrap_err();
    assert_eq!(err, ShellError::Failed { bin: "whois".to_string(), stderr: "no match\n".to_string() });
    assert_eq!(err.message(), "'whois' exited with an error: no match\n");
}

#[test]
fn run_soft_never_fails() {
    assert_eq!(run_soft(&Ok("out".to_string())), "out");
    assert_eq!(run_soft(&Err(ShellError::Io("boom".to_string()))), "[skipped] boom");
}
