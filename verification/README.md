# osint

A reconnaissance command line for Kali Linux that drives the tools already
there (`whois`, `dig`, `nmap`, `recon-ng`, `subfinder`, `theHarvester`,
`amass`, `curl`) and a few public services (crt.sh, the Wayback Machine,
ip-api.com), and turns what they print into compact, boxed reports.

## Layout

- `src/` is the library, verified with Verus: every report is a function
  from the tools' raw output to a sequence of styled pieces, with a contract
  that says exactly which pieces come out. It also holds the decisions around
  the tools (which command line to run, when a running tool is killed, which
  apt package to name when a tool is missing), the HTTP reply parser with its
  chunked-encoding decoder, and the closing dashboard of a full sweep.
  - `text`: lines, trimming, searching, decimal numbers over characters.
  - `style`: looks, spans and how the terminal library draws them.
  - `shell`: tool invocations, timeouts and the errors a run can end in.
  - `http`: the request, the reply, and chunked transfer encoding.
  - `json`: the JSON documents the lookups read.
  - `sorted`: the ascending set of certificate names, kept in a sorted
    vector. vstd specifies `BTreeSet`, but only for keys whose `Ord` obeys
    its ordering laws, and it states no such law for `String`; a
    `BTreeSet<String>` would carry no usable contract.
  - `ui`, `mono`: boxes, banners, the dashboard and the counts it reads back.
  - `commands/`: one module per lookup.
  - `sweep`: the plan of a full sweep (each lookup's box and report
    section, in order, with `--deep` adding subfinder, theHarvester, amass
    and the Wayback Machine) and its dashboard.
- The library models the current command line: its `full` sweep has seven
  sections, eleven with `--deep`. The earlier five-section sweep and its
  box style are not modelled, apart from the plain section frames in `mono`.
- `app/` is the executable: argument parsing, running processes, sockets,
  files, the spinner and the clock. It hands the library plain values and
  prints what comes back.
- `tests/` runs the library on concrete inputs.

## Laws proved in `src/`

- Decoding a body that was chunked, with its sizes in lower- or upper-case
  hex, gives back the chunks one after the other, for chunks that are not
  empty (an empty chunk would end the body) (`http::lemma_dechunk_undoes_chunking`).
- The dashboard of a deep sweep reads back, from the drawn reports, exactly
  the counts they print, with or without colour
  (`sweep::lemma_dashboard_reads_reports` and each command's
  `lemma_read_back`). A listed count is proved for a target without line
  breaks, or for one that does not hold that count's marker (such as
  `subdomains found`); the open-port count for a target without `/` and nmap
  output without escape characters.
- Colour changes nothing but escape sequences: a drawing of spans whose text
  holds no escape character shows exactly their text once the escape
  sequences are removed (`style::render`, `style::lemma_shows_unstyled`).
- Report files stay in `./osint-reports/`: their names hold no `/`
  (`commands::report::file_name`).
