pub mod amass;
pub mod certs;
pub mod dns;
pub mod harvester;
pub mod headers;
pub mod ipinfo;
pub mod listing;
pub mod ports;
pub mod recon;
pub mod report;
pub mod subfinder;
pub mod wayback;
pub mod whois;
