use osint::mono;
use osint::style::{render, Hue, Look, Span, Tone};
use osint::ui::{banner, boxed, boxed_timed, count_open_ports, extract_count, summary, target_banner};

fn sp(text: &str, look: Look) -> Span {
    Span { text: text.to_string(), look }
}

fn plain(spans: &[Span]) -> String {
    spans.iter().map(|s| s.text.as_str()).collect()
}

const BLUE: Tone = Tone::Dark(Hue::Blue);
const GREY: Look = Look::Fg(Tone::Bright(Hue::Black));

#[test]
fn extract_count_reads_leading_number() {
    let text = "Certificate transparency results for x\n  12 unique names found:\n  a.x\n";
    assert_eq!(extract_count(text, "unique names found"), 12);
}

#[test]
fn extract_count_skips_lines_without_number() {
    let text = "  (no subdomains found)\n  7 subdomains found:\n";
    assert_eq!(extract_count(text, "subdomains found"), 7);
    assert_eq!(extract_count("  +3 assets found:", "assets found"), 3);
    assert_eq!(extract_count("nothing here", "assets found"), 0);
    assert_eq!(extract_count("  99999999999999999999999 assets found", "assets found"), 0);
}

#[test]
fn count_open_ports_counts_open_rows() {
    let text = "PORT   STATE SERVICE\n22/tcp open  ssh\n80/tcp closed http\n443/tcp open https\nopen but no slash\n";
    assert_eq!(count_open_ports(text), 2);
    assert_eq!(count_open_ports(""), 0);
}

#[test]
fn boxed_wraps_each_line() {
    let b = boxed("🌐", "DNS", BLUE, "one\ntwo\n");
    let label = " 🌐  DNS ";
    let bar = "─".repeat(52 - label.chars().count());
    let expected = vec![
        sp("╭─", Look::Fg(BLUE)),
        sp(label, Look::BoldFg(BLUE)),
        sp(&bar, Look::Fg(BLUE)),
        sp("\n", Look::Plain),
        sp("│", Look::Fg(BLUE)),
        sp(" one\n", Look::Plain),
        sp("│", Look::Fg(BLUE)),
        sp(" two\n", Look::Plain),
        sp(&format!("╰{}", "─".repeat(50)), Look::Fg(BLUE)),
        sp("\n", Look::Plain),
    ];
    assert_eq!(b, expected);
}

#[test]
fn boxed_timed_shows_elapsed() {
    let b = boxed_timed("🗄️", "WHOIS", BLUE, "", Some("1.2"));
    let label = " 🗄️  WHOIS ";
    assert_eq!(b[1], sp(label, Look::BoldFg(BLUE)));
    assert_eq!(b[2].text.chars().count(), 52 - label.chars().count() - 7);
    assert_eq!(b[3], sp(" ", Look::Plain));
    assert_eq!(b[4], sp("1.2s", Look::Dimmed));
    assert_eq!(b[5], sp(" ", Look::Plain));
    assert_eq!(b.len(), 9);
}

#[test]
fn summary_joins_items() {
    let s = summary(&[("subdomains", 12), ("open ports", 3)]);
    let bar = "─".repeat(52);
    assert_eq!(
        plain(&s),
        format!("{bar}\n📊 SUMMARY 12 subdomains · 3 open ports\n{bar}\n")
    );
    assert_eq!(s[4], sp("12", Look::BoldFg(Tone::Bright(Hue::Green))));
    assert_eq!(s[6], sp("subdomains", Look::Dimmed));
    assert_eq!(s[8], sp("·", GREY));
}

#[test]
fn target_banner_width() {
    let b = target_banner("example.com");
    let label = " 🎯 TARGET: example.com ";
    let bar = "═".repeat(label.chars().count() + 4);
    assert_eq!(plain(&b), format!("{bar}\n{label}\n{bar}\n"));
    assert_eq!(b[2].look, Look::Badge);
    let short = target_banner("a");
    assert_eq!(short[0].text.chars().count(), 24);
}

#[test]
fn banner_has_art_and_tagline() {
    let b = banner();
    let text = plain(&b);
    assert!(text.starts_with("\n  ___  ____ ___ _   _ _____ \n"));
    assert!(text.ends_with("whois → nmap\n\n"));
    assert_eq!(b[1].look, Look::BoldFg(Tone::Bright(Hue::Cyan)));
    assert_eq!(b[11].look, Look::DimmedItalic);
}

#[test]
fn mono_frames() {
    let h = mono::section_header("🌐", "WHOIS");
    let label = " 🌐  WHOIS ";
    assert_eq!(h[1], sp(label, Look::BoldFg(Tone::Dark(Hue::White))));
    assert_eq!(h[2].text.chars().count(), 50 - label.chars().count());
    let f = mono::section_footer();
    assert_eq!(f, vec![sp(&format!("╰{}", "─".repeat(48)), GREY)]);
    let b = mono::boxed("🌐", "WHOIS", "x");
    assert_eq!(plain(&b), format!("╭─{label}{}\n│ x\n╰{}\n", "─".repeat(50 - label.chars().count()), "─".repeat(48)));
}

#[test]
fn render_with_and_without_colours() {
    let spans = vec![sp("title", Look::BoldFg(Tone::Dark(Hue::Cyan))), sp("\n", Look::Plain)];
    colored::control::set_override(false);
    assert_eq!(render(&spans), "title\n");
    colored::control::set_override(true);
    assert_eq!(render(&spans), "\x1b[1;36mtitle\x1b[0m\n");
    assert_eq!(render(&vec![sp("x", Look::Badge)]), "\x1b[1;106;30mx\x1b[0m");
    assert_eq!(render(&vec![sp("x", Look::DimmedItalic)]), "\x1b[2;3mx\x1b[0m");
    assert_eq!(render(&vec![sp("x", Look::Fg(Tone::Bright(Hue::Black)))]), "\x1b[90mx\x1b[0m");
    assert_eq!(render(&vec![sp("x", Look::Plain)]), "x");
    // A reset inside coloured text is followed by the look again.
    assert_eq!(
        render(&vec![sp("a\x1b[0mb", Look::BoldFg(Tone::Dark(Hue::Cyan)))]),
        "\x1b[1;36ma\x1b[0m\x1b[1;36mb\x1b[0m"
    );
    // Removing the escape sequences leaves the text of the spans.
    let section = boxed_timed("🌐", "DNS", Tone::Bright(Hue::Blue), "a\nb mm\n", Some("1.5"));
    assert_eq!(unstyled(&render(&section)), plain(&section));
    colored::control::set_override(false);
}

fn unstyled(s: &str) -> String {
    let mut out = String::new();
    let mut in_escape = false;
    for c in s.chars() {
        if in_escape {
            in_escape = c != 'm';
        } else if c == '\x1b' {
            in_escape = true;
        } else {
            out.push(c);
        }
    }
    out
}
