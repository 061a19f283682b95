//! The full sweep: which sections it reports, and the counts on its
//! closing dashboard.
use vstd::prelude::*;

use crate::commands::listing::{filled, no_break};
use crate::commands::{amass, certs, ports, subfinder, wayback};
use crate::json::{json_of, Json};
use crate::style::{has_esc, shows, Hue, Tone};
use crate::text::{contains, lines};
use crate::ui::{count_marked, count_open, count_open_ports, extract_count};

verus! {

/// The section titles of the saved report, in order; the deep sweep adds
/// subfinder, theHarvester, amass and the Wayback Machine.
pub open spec fn titles(deep: bool) -> Seq<Seq<char>> {
    seq![
        "WHOIS"@,
        "DNS"@,
        "IP / Geolocation"@,
        "Certificate transparency"@,
        "HTTP headers"@,
        "recon-ng"@,
        "Open ports"@,
    ] + if deep {
        seq!["subfinder"@, "theHarvester"@, "amass"@, "Wayback Machine"@]
    } else {
        seq![]
    }
}

/// The section titles of the saved report, in order.
pub fn section_titles(deep: bool) -> (r: Vec<&'static str>)
    ensures
        r@.len() == titles(deep).len(),
        forall|i: int| 0 <= i < r@.len() ==> (#[trigger] r@[i])@ == titles(deep)[i],
        r@[3]@ == "Certificate transparency"@,
        r@[6]@ == "Open ports"@,
        deep ==> r@[7]@ == "subfinder"@ && r@[9]@ == "amass"@ && r@[10]@ == "Wayback Machine"@,
{
    let mut r: Vec<&'static str> = Vec::new();
    r.push("WHOIS");
    r.push("DNS");
    r.push("IP / Geolocation");
    r.push("Certificate transparency");
    r.push("HTTP headers");
    r.push("recon-ng");
    r.push("Open ports");
    if deep {
        r.push("subfinder");
        r.push("theHarvester");
        r.push("amass");
        r.push("Wayback Machine");
    }
    proof {
        lemma_sweep_order(deep);
    }
    r
}

/// The lookups that a sweep runs.
#[derive(Clone, Copy, Debug, PartialEq, Eq, Structural)]
pub enum Lookup {
    Whois,
    Dns,
    Ip,
    Certs,
    Headers,
    Recon,
    Ports,
    Subfinder,
    Harvester,
    Amass,
    Wayback,
}

/// One step of the sweep: the lookup, the icon, label and tone of its box on
/// screen, and its title in the saved report.
pub struct Step {
    pub lookup: Lookup,
    pub icon: &'static str,
    pub label: &'static str,
    pub tone: Tone,
    pub title: &'static str,
}

/// The lookups of the sweep, in the order they run.
pub open spec fn lookups(deep: bool) -> Seq<Lookup> {
    seq![
        Lookup::Whois,
        Lookup::Dns,
        Lookup::Ip,
        Lookup::Certs,
        Lookup::Headers,
        Lookup::Recon,
        Lookup::Ports,
    ] + if deep {
        seq![Lookup::Subfinder, Lookup::Harvester, Lookup::Amass, Lookup::Wayback]
    } else {
        seq![]
    }
}

/// The box a lookup's report is shown in: icon, label and tone.
pub open spec fn box_of(l: Lookup) -> (Seq<char>, Seq<char>, Tone) {
    match l {
        Lookup::Whois => ("🗄️"@, "WHOIS"@, Tone::Dark(Hue::Blue)),
        Lookup::Dns => ("🌐"@, "DNS"@, Tone::Dark(Hue::Green)),
        Lookup::Ip => ("📡"@, "IP / GEOLOCATION"@, Tone::Dark(Hue::Magenta)),
        Lookup::Certs => ("📜"@, "CERTIFICATE TRANSPARENCY"@, Tone::Bright(Hue::Green)),
        Lookup::Headers => ("🧬"@, "HTTP HEADERS / FINGERPRINT"@, Tone::Bright(Hue::Yellow)),
        Lookup::Recon => ("🔍"@, "RECON-NG"@, Tone::Dark(Hue::Cyan)),
        Lookup::Ports => ("🛰️"@, "OPEN PORTS"@, Tone::Dark(Hue::Red)),
        Lookup::Subfinder => ("🧭"@, "SUBFINDER"@, Tone::Dark(Hue::Yellow)),
        Lookup::Harvester => ("🎯"@, "THEHARVESTER"@, Tone::Bright(Hue::Magenta)),
        Lookup::Amass => ("🕸️"@, "AMASS"@, Tone::Bright(Hue::Blue)),
        Lookup::Wayback => ("🕰️"@, "WAYBACK MACHINE"@, Tone::Bright(Hue::Cyan)),
    }
}

/// The box a lookup's report is shown in, on its own or in a sweep.
pub fn box_for(l: Lookup) -> (r: (&'static str, &'static str, Tone))
    ensures
        (r.0@, r.1@, r.2) == box_of(l),
{
    match l {
        Lookup::Whois => ("🗄️", "WHOIS", Tone::Dark(Hue::Blue)),
        Lookup::Dns => ("🌐", "DNS", Tone::Dark(Hue::Green)),
        Lookup::Ip => ("📡", "IP / GEOLOCATION", Tone::Dark(Hue::Magenta)),
        Lookup::Certs => ("📜", "CERTIFICATE TRANSPARENCY", Tone::Bright(Hue::Green)),
        Lookup::Headers => ("🧬", "HTTP HEADERS / FINGERPRINT", Tone::Bright(Hue::Yellow)),
        Lookup::Recon => ("🔍", "RECON-NG", Tone::Dark(Hue::Cyan)),
        Lookup::Ports => ("🛰️", "OPEN PORTS", Tone::Dark(Hue::Red)),
        Lookup::Subfinder => ("🧭", "SUBFINDER", Tone::Dark(Hue::Yellow)),
        Lookup::Harvester => ("🎯", "THEHARVESTER", Tone::Bright(Hue::Magenta)),
        Lookup::Amass => ("🕸️", "AMASS", Tone::Bright(Hue::Blue)),
        Lookup::Wayback => ("🕰️", "WAYBACK MACHINE", Tone::Bright(Hue::Cyan)),
    }
}

fn step(l: Lookup, title: &'static str) -> (r: Step)
    ensures
        r.lookup == l,
        (r.icon@, r.label@, r.tone) == box_of(l),
        r.title == title,
{
    let (icon, label, tone) = box_for(l);
    Step { lookup: l, icon, label, tone, title }
}

/// The steps of the sweep, in the order they run: the quick sweep's seven
/// lookups, and with `deep` subfinder, theHarvester, amass and the Wayback
/// Machine after them; each with its box and its report section.
pub fn plan(deep: bool) -> (r: Vec<Step>)
    ensures
        r@.len() == lookups(deep).len(),
        r@.len() == titles(deep).len(),
        forall|i: int|
            0 <= i < r@.len() ==> (#[trigger] r@[i]).lookup == lookups(deep)[i] && (
                r@[i].icon@,
                r@[i].label@,
                r@[i].tone,
            ) == box_of(r@[i].lookup) && r@[i].title@ == titles(deep)[i],
        r@.len() == if deep {
            11int
        } else {
            7int
        },
        r@[3].lookup == Lookup::Certs && r@[3].title@ == "Certificate transparency"@,
        r@[6].lookup == Lookup::Ports && r@[6].title@ == "Open ports"@,
        deep ==> r@[7].lookup == Lookup::Subfinder && r@[9].lookup == Lookup::Amass && r@[10].lookup
            == Lookup::Wayback,
{
    let mut r: Vec<Step> = Vec::new();
    r.push(step(Lookup::Whois, "WHOIS"));
    r.push(step(Lookup::Dns, "DNS"));
    r.push(step(Lookup::Ip, "IP / Geolocation"));
    r.push(step(Lookup::Certs, "Certificate transparency"));
    r.push(step(Lookup::Headers, "HTTP headers"));
    r.push(step(Lookup::Recon, "recon-ng"));
    r.push(step(Lookup::Ports, "Open ports"));
    if deep {
        r.push(step(Lookup::Subfinder, "subfinder"));
        r.push(step(Lookup::Harvester, "theHarvester"));
        r.push(step(Lookup::Amass, "amass"));
        r.push(step(Lookup::Wayback, "Wayback Machine"));
    }
    proof {
        lemma_sweep_order(deep);
    }
    r
}

/// The order of the sweep, stated step by step: WHOIS, DNS, IP and
/// geolocation, certificate transparency, HTTP headers, recon-ng and open
/// ports; with `--deep` subfinder, theHarvester, amass and the Wayback
/// Machine after them. So the steps whose outputs the dashboard reads are
/// the ones it counts: step 3 is the certificate lookup, step 6 the port
/// scan, and steps 7, 9 and 10 subfinder, amass and the Wayback Machine.
pub proof fn lemma_sweep_order(deep: bool)
    ensures
        lookups(false) == seq![
            Lookup::Whois,
            Lookup::Dns,
            Lookup::Ip,
            Lookup::Certs,
            Lookup::Headers,
            Lookup::Recon,
            Lookup::Ports,
        ],
        lookups(true) == lookups(false) + seq![
            Lookup::Subfinder,
            Lookup::Harvester,
            Lookup::Amass,
            Lookup::Wayback,
        ],
        lookups(deep).len() == titles(deep).len(),
        lookups(deep)[3] == Lookup::Certs && titles(deep)[3] == "Certificate transparency"@,
        lookups(deep)[6] == Lookup::Ports && titles(deep)[6] == "Open ports"@,
        deep ==> lookups(deep)[7] == Lookup::Subfinder && titles(deep)[7] == "subfinder"@,
        deep ==> lookups(deep)[9] == Lookup::Amass && titles(deep)[9] == "amass"@,
        deep ==> lookups(deep)[10] == Lookup::Wayback && titles(deep)[10] == "Wayback Machine"@,
{
    assert(lookups(false) =~= seq![
        Lookup::Whois,
        Lookup::Dns,
        Lookup::Ip,
        Lookup::Certs,
        Lookup::Headers,
        Lookup::Recon,
        Lookup::Ports,
    ]);
    assert(lookups(true) =~= lookups(false) + seq![
        Lookup::Subfinder,
        Lookup::Harvester,
        Lookup::Amass,
        Lookup::Wayback,
    ]);
}

/// The dashboard of a sweep from the outputs of its steps, in the order of
/// `plan`: open ports from the ports step, certificate names from the
/// certificate step, and with `deep` subdomains, passive assets and archived
/// URLs from the subfinder, amass and Wayback steps.
pub fn dashboard(outputs: &Vec<String>, deep: bool) -> (r: Vec<(&'static str, usize)>)
    requires
        outputs@.len() == titles(deep).len(),
    ensures
        r@.len() == counts(
            outputs@[6]@,
            outputs@[3]@,
            if deep {
                Some((outputs@[7]@, outputs@[9]@, outputs@[10]@))
            } else {
                None
            },
        ).len(),
        forall|i: int|
            0 <= i < r@.len() ==> ((#[trigger] r@[i]).0@, r@[i].1 as nat) == counts(
                outputs@[6]@,
                outputs@[3]@,
                if deep {
                    Some((outputs@[7]@, outputs@[9]@, outputs@[10]@))
                } else {
                    None
                },
            )[i],
{
    if deep {
        summary_counts(
            outputs[6].as_str(),
            outputs[3].as_str(),
            Some(DeepOutputs {
                subfinder: outputs[7].as_str(),
                amass: outputs[9].as_str(),
                wayback: outputs[10].as_str(),
            }),
        )
    } else {
        summary_counts(outputs[6].as_str(), outputs[3].as_str(), None)
    }
}

/// The outputs of the deep sweep's extra sections that the dashboard counts.
pub struct DeepOutputs<'a> {
    pub subfinder: &'a str,
    pub amass: &'a str,
    pub wayback: &'a str,
}

/// The dashboard items: open ports and certificate names always; with the
/// deep sweep also subdomains, passive assets and archived URLs, each read
/// back from what its section printed.
pub open spec fn counts(
    ports: Seq<char>,
    certs: Seq<char>,
    deep: Option<(Seq<char>, Seq<char>, Seq<char>)>,
) -> Seq<(Seq<char>, nat)> {
    seq![
        ("open ports"@, count_open(lines(ports))),
        ("cert-discovered names"@, count_marked(lines(certs), "unique names found"@) as nat),
    ] + match deep {
        Some((s, a, w)) => seq![
            ("subdomains"@, count_marked(lines(s), "subdomains found"@) as nat),
            ("passive assets"@, count_marked(lines(a), "assets found"@) as nat),
            ("archived URLs"@, count_marked(lines(w), "archived URLs found"@) as nat),
        ],
        None => seq![],
    }
}

/// The deep sweep's outputs by their characters.
pub open spec fn deep_views(deep: Option<DeepOutputs>) -> Option<(Seq<char>, Seq<char>, Seq<char>)> {
    match deep {
        Some(d) => Some((d.subfinder@, d.amass@, d.wayback@)),
        None => None,
    }
}

/// The dashboard items, each count read back from the section it comes from.
pub fn summary_counts(ports: &str, certs: &str, deep: Option<DeepOutputs>) -> (r: Vec<(&'static str, usize)>)
    ensures
        r@.len() == counts(ports@, certs@, deep_views(deep)).len(),
        forall|i: int|
            0 <= i < r@.len() ==> ((#[trigger] r@[i]).0@, r@[i].1 as nat) == counts(
                ports@,
                certs@,
                deep_views(deep),
            )[i],
{
    let mut r: Vec<(&'static str, usize)> = Vec::new();
    r.push(("open ports", count_open_ports(ports)));
    r.push(("cert-discovered names", extract_count(certs, "unique names found")));
    match deep {
        Some(d) => {
            r.push(("subdomains", extract_count(d.subfinder, "subdomains found")));
            r.push(("passive assets", extract_count(d.amass, "assets found")));
            r.push(("archived URLs", extract_count(d.wayback, "archived URLs found")));
        },
        None => {},
    }
    r
}

/// The dashboard of a deep sweep reads back what the sections printed: the
/// lines of nmap's port table that show an open port, and the distinct
/// certificate names, the subdomains, the passive assets and the archived
/// URLs that the drawn reports list (a count is 0 where the reply did not
/// parse), whether or not colour was on. The target may hold escape
/// characters; where it holds a line break, a count is read back whenever the
/// target does not itself hold that count's marker.
pub proof fn lemma_dashboard_reads_reports(
    target: Seq<char>,
    ports_output: Seq<char>,
    ports_text: Seq<char>,
    certs_body: Seq<char>,
    certs_text: Seq<char>,
    sub_output: Seq<char>,
    sub_text: Seq<char>,
    amass_output: Seq<char>,
    amass_text: Seq<char>,
    limit: u32,
    wayback_body: Seq<char>,
    wayback_text: Seq<char>,
)
    requires
        no_break(target) || !contains(target, "unique names found"@),
        no_break(target) || !contains(target, "subdomains found"@),
        no_break(target) || !contains(target, "assets found"@),
        no_break(target) || !contains(target, "archived URLs found"@),
        forall|j: int| 0 <= j < target.len() ==> #[trigger] target[j] != '/',
        !has_esc(ports_output),
        shows(ports_text, ports::report(target, ports_output)),
        shows(certs_text, certs::report(target, certs_body)),
        shows(sub_text, subfinder::report(target, sub_output)),
        shows(amass_text, amass::report(target, amass_output)),
        shows(wayback_text, wayback::report(target, limit, wayback_body)),
        json_of(certs_body) matches Some(Json::Array(es)) ==> certs::name_set(
            certs::all_names(es@),
        ).len() <= usize::MAX,
        filled(lines(sub_output)).len() <= usize::MAX,
        filled(lines(amass_output)).len() <= usize::MAX,
        wayback::data_rows(wayback_body) matches Some(rows) ==> wayback::row_urls(rows).len()
            <= usize::MAX,
    ensures
        counts(ports_text, certs_text, Some((sub_text, amass_text, wayback_text))) == seq![
            ("open ports"@, count_open(ports::table_lines(lines(ports_output), false))),
            (
                "cert-discovered names"@,
                match json_of(certs_body) {
                    Some(Json::Array(es)) => certs::name_set(certs::all_names(es@)).len(),
                    _ => 0,
                },
            ),
            ("subdomains"@, filled(lines(sub_output)).len()),
            ("passive assets"@, filled(lines(amass_output)).len()),
            (
                "archived URLs"@,
                match wayback::data_rows(wayback_body) {
                    Some(rows) => wayback::row_urls(rows).len(),
                    None => 0,
                },
            ),
        ],
{
    ports::lemma_read_back(ports_text, target, ports_output);
    certs::lemma_read_back(certs_text, target, certs_body);
    subfinder::lemma_read_back(sub_text, target, sub_output);
    amass::lemma_read_back(amass_text, target, amass_output);
    wayback::lemma_read_back(wayback_text, target, limit, wayback_body);
    assert(counts(ports_text, certs_text, Some((sub_text, amass_text, wayback_text))) =~= seq![
        ("open ports"@, count_open(ports::table_lines(lines(ports_output), false))),
        (
            "cert-discovered names"@,
            match json_of(certs_body) {
                Some(Json::Array(es)) => certs::name_set(certs::all_names(es@)).len(),
                _ => 0,
            },
        ),
        ("subdomains"@, filled(lines(sub_output)).len()),
        ("passive assets"@, filled(lines(amass_output)).len()),
        (
            "archived URLs"@,
            match wayback::data_rows(wayback_body) {
                Some(rows) => wayback::row_urls(rows).len(),
                None => 0,
            },
        ),
    ]);
}

} // verus!
