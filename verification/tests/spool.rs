use nysia_core::spool::{
    append, claim, drain, drain_order, drain_plan, drained_lines, file_stem, has_extension,
    spool_dir, Drained, Listing, SpoolError, DIGEST_PREFIX, DRAINING, FILE_CAP_BYTES,
    MAX_HEX_STEM, SPOOLED,
};
use nysia_core::wire::Platform;

const UNIX: Platform = Platform::Unix;
const DIR: &str = "/run/nysia";

/// A row as its pane and the moment it was observed, the way a file holds one.
#[derive(Debug, Clone, PartialEq)]
struct Row {
    pane: String,
    observed_at: u64,
}

fn row(tab: &str, observed_at: u64) -> Row {
    Row { pane: format!("{tab}:leaf_1"), observed_at }
}

fn rendered(row: &Row) -> String {
    format!("{{\"pane\":\"{}\",\"observedAt\":{}}}", row.pane, row.observed_at)
}

fn parsed(line: &str) -> Option<Row> {
    let value: serde_json::Value = serde_json::from_str(line).ok()?;
    Some(Row {
        pane: value.get("pane")?.as_str()?.to_owned(),
        observed_at: value.get("observedAt")?.as_u64()?,
    })
}

/// A spool directory, as the names in it and what each file holds.
#[derive(Default)]
struct Spool {
    files: Vec<(String, String)>,
}

impl Spool {
    fn append(&mut self, row: &Row) -> Result<String, SpoolError> {
        let name = format!("{}.{SPOOLED}", file_stem(&row.pane));
        let size = self.files.iter().find(|(at, _)| *at == name).map(|(_, held)| held.len() as u64);
        let plan = append(UNIX, DIR, &row.pane, Ok(()), Ok(rendered(row)), size)?;
        assert_eq!(plan.path, format!("{}/{name}", spool_dir(UNIX, DIR)));
        match self.files.iter_mut().find(|(at, _)| *at == name) {
            Some((_, held)) => held.push_str(&plan.line),
            None => self.files.push((name, plan.line)),
        }
        Ok(plan.path)
    }

    fn names(&self) -> Vec<String> {
        self.files.iter().map(|(name, _)| name.clone()).collect()
    }

    fn drain(&mut self) -> Drained<Row> {
        let plan = drain_plan(UNIX, DIR, Listing::Names(self.names())).expect("the listing is read");
        let mut claimed = Vec::new();
        for (at, name) in plan.spooled.into_iter().enumerate() {
            let renamed = claim(&name, at as u128).expect("a spooled file is claimed");
            self.files.iter_mut().find(|(held, _)| *held == name).expect("listed").0 =
                renamed.clone();
            claimed.push(renamed);
        }
        let mut read = Vec::new();
        for name in drain_order(plan.leftovers, claimed) {
            let at = self.files.iter().position(|(held, _)| *held == name).expect("claimed");
            let (_, text) = self.files.remove(at);
            for line in drained_lines(Some(&text), true) {
                read.push(parsed(&line));
            }
        }
        drain(read)
    }
}

#[test]
fn a_row_spooled_is_a_row_drained_and_the_spool_is_then_empty() {
    let mut spool = Spool::default();
    let written = row("tab_1", 1_000);
    spool.append(&written).expect("the row spools");
    let first = spool.drain();
    assert_eq!(first.rows, [written]);
    assert_eq!(first.unreadable, 0);
    assert!(spool.drain().rows.is_empty(), "a drained spool is an empty spool");
}

#[test]
fn the_observed_at_the_hook_recorded_survives_the_round_trip() {
    let mut spool = Spool::default();
    spool.append(&row("tab_1", 1_757_721_600_123)).expect("the row spools");
    assert_eq!(spool.drain().rows[0].observed_at, 1_757_721_600_123);
}

#[test]
fn each_pane_gets_its_own_file_and_a_drain_takes_them_all() {
    let mut spool = Spool::default();
    spool.append(&row("tab_1", 1_000)).expect("the first row spools");
    spool.append(&row("tab_2", 2_000)).expect("the second row spools");
    assert_eq!(spool.files.len(), 2);
    let mut panes: Vec<String> = spool.drain().rows.into_iter().map(|row| row.pane).collect();
    panes.sort();
    assert_eq!(panes, ["tab_1:leaf_1", "tab_2:leaf_1"]);
}

#[test]
fn a_pane_key_never_becomes_a_path() {
    let mut spool = Spool::default();
    let hostile = row("../../escaped", 1_000);
    spool.append(&hostile).expect("the row spools");
    let names = spool.names();
    assert_eq!(names.len(), 1, "one pane, one file");
    for name in &names {
        assert!(!name.contains("..") && !name.contains('/') && !name.contains('\\'), "{name}");
    }
    assert_eq!(spool.drain().rows, [hostile]);
}

#[test]
fn a_line_that_will_not_parse_is_counted_and_costs_the_others_nothing() {
    let mut spool = Spool::default();
    let good = row("tab_1", 1_000);
    spool.append(&good).expect("the row spools");
    spool.files[0].1.push_str("{\"pane\":\"truncated\n");
    let drained = spool.drain();
    assert_eq!(drained.rows, [good], "the whole line still lands");
    assert_eq!(drained.unreadable, 1);
}

#[test]
fn a_full_spool_refuses_rather_than_growing_without_bound() {
    let append = |size| append(UNIX, DIR, "tab_1:leaf_1", Ok(()), Ok("{}".to_owned()), size);
    let err = append(Some(FILE_CAP_BYTES)).expect_err("a full spool refuses");
    assert!(matches!(err, SpoolError::Full { size: FILE_CAP_BYTES }));
    assert_eq!(
        err.message(),
        "the agent-status spool for this pane is full at 1048576 bytes"
    );
    assert!(append(Some(FILE_CAP_BYTES - 1)).is_ok());
    assert!(append(None).is_ok());
}

#[test]
fn a_pane_key_too_long_to_hex_still_spools_and_still_drains() {
    let mut spool = Spool::default();
    let long = row(&"t".repeat(300), 1_000);
    assert!(long.pane.len() > 300);
    spool.append(&long).expect("a long pane key still spools");
    let name = spool.names().remove(0);
    assert!(name.len() < 255, "{} chars", name.len());
    assert!(name.starts_with(DIGEST_PREFIX), "got {name}");
    assert!(!name.contains("..") && !name.contains('/') && !name.contains('\\'));
    assert_eq!(spool.drain().rows, [long]);
}

#[test]
fn an_ordinary_pane_key_keeps_its_readable_hex_name() {
    let uuid_pair = "tab_9f8a6c12-4b1e-4a77-9d33-0c2f71b5ee90:leaf_1";
    let stem = file_stem(uuid_pair);
    assert!(!stem.starts_with(DIGEST_PREFIX), "got {stem}");
    assert!(stem.len() <= MAX_HEX_STEM);
    let bytes = stem
        .as_bytes()
        .chunks(2)
        .filter_map(|pair| u8::from_str_radix(std::str::from_utf8(pair).ok()?, 16).ok())
        .collect();
    assert_eq!(
        String::from_utf8(bytes).expect("the hex decodes back to the key"),
        uuid_pair,
        "the hex form stays reversible by eye"
    );
    assert_eq!(file_stem("a:\u{e9}"), "613ac3a9");
}

#[test]
fn a_leftover_claim_from_a_dead_drain_is_delivered_rather_than_dropped() {
    let mut spool = Spool::default();
    let orphan = row("tab_1", 1_000);
    let name = format!("{}.7.{DRAINING}", file_stem(&orphan.pane));
    spool.files.push((name, format!("{}\n", rendered(&orphan))));
    assert_eq!(spool.drain().rows, [orphan]);
    assert!(spool.files.is_empty());
}

#[test]
fn a_stem_is_hex_up_to_its_cap_and_a_digest_past_it() {
    assert_eq!(file_stem(&"a".repeat(100)), "61".repeat(100));
    let past = file_stem(&"a".repeat(101));
    assert!(past.starts_with(DIGEST_PREFIX));
    assert_ne!(past, file_stem(&"a".repeat(102)));
}

#[test]
fn an_append_says_which_part_of_it_failed() {
    let err = append(UNIX, DIR, "p", Err("denied".to_owned()), Ok("{}".to_owned()), None)
        .expect_err("no directory");
    assert_eq!(
        err.message(),
        "could not create the agent-status spool at /run/nysia/agent-status: denied"
    );
    let err = append(UNIX, DIR, "p", Ok(()), Err("a key".to_owned()), None).expect_err("no row");
    assert_eq!(err.message(), "could not render an agent-status row as JSON: a key");
    let plan = append(UNIX, DIR, "p", Ok(()), Ok("{}".to_owned()), None).expect("spools");
    assert_eq!(plan.path, "/run/nysia/agent-status/70.jsonl");
    assert_eq!(plan.line, "{}\n");
    assert_eq!(spool_dir(Platform::Windows, r"C:\run"), r"C:\run\agent-status");
}

#[test]
fn a_missing_spool_is_empty_and_an_unreadable_one_is_an_error() {
    let plan = drain_plan(UNIX, DIR, Listing::Missing).expect("a first start");
    assert!(plan.leftovers.is_empty() && plan.spooled.is_empty());
    let err = drain_plan(UNIX, DIR, Listing::Failed("denied".to_owned())).expect_err("unreadable");
    assert!(matches!(err, SpoolError::Io { action: "list", .. }));
    let names = ["a.jsonl", "b.1.draining", "notes.txt", ".jsonl", "jsonl", "a.jsonl.bak"];
    let listing = Listing::Names(names.iter().map(|name| name.to_string()).collect());
    let plan = drain_plan(UNIX, DIR, listing).expect("sorted out");
    assert_eq!(plan.spooled, ["a.jsonl"]);
    assert_eq!(plan.leftovers, ["b.1.draining"]);
}

#[test]
fn a_claim_is_unique_and_only_for_a_spooled_file() {
    assert_eq!(claim("ab.jsonl", 7).as_deref(), Some("ab.7.draining"));
    assert_eq!(
        claim("ab.jsonl", u128::MAX).as_deref(),
        Some("ab.340282366920938463463374607431768211455.draining")
    );
    assert_eq!(claim("ab.7.draining", 8), None);
    assert!(has_extension(&claim("ab.jsonl", 7).expect("claimed"), DRAINING));
    assert!(!has_extension("ab.jsonl", DRAINING));
}

#[test]
fn a_file_that_could_not_be_read_or_unlinked_hands_nothing_over() {
    assert!(drained_lines(None, true).is_empty());
    assert!(drained_lines(Some("{}\n"), false).is_empty());
    assert_eq!(drained_lines(Some("a\r\n\n  \nb"), true), ["a", "b"]);
    assert!(drained_lines(Some(""), true).is_empty());
    let gathered = drain(vec![Some(1), None, Some(2), None]);
    assert_eq!(gathered.rows, [1, 2]);
    assert_eq!(gathered.unreadable, 2);
}

#[test]
fn rows_of_many_panes_are_all_drained_once_and_each_pane_s_in_order() {
    let mut spool = Spool::default();
    let long = "t".repeat(300);
    let mut written = Vec::new();
    for at in 0..4 {
        for tab in ["tab_1", "tab_2", long.as_str()] {
            let row = row(tab, 1_000 + at);
            spool.append(&row).expect("the row spools");
            written.push(row);
        }
    }
    let drained = spool.drain();
    assert_eq!(drained.unreadable, 0);
    assert_eq!(drained.rows.len(), written.len());
    for pane in ["tab_1:leaf_1".to_owned(), "tab_2:leaf_1".to_owned(), format!("{long}:leaf_1")] {
        let of = |rows: &[Row]| -> Vec<Row> {
            rows.iter().filter(|row| row.pane == pane).cloned().collect()
        };
        assert_eq!(of(&drained.rows), of(&written));
    }
    let second = spool.drain();
    assert!(second.rows.is_empty() && second.unreadable == 0);
    assert!(spool.files.is_empty());
}
