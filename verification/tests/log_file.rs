use nysia_core::log_file::{
    confinement_lifted, refusal_note, rotation_path, screen_directives, trim, trim_to,
    unconfined_note, Trimmed, CONFINED_TARGETS, KEPT_ROTATIONS, LOG_ENV, MAX_LOG_BYTES,
    MAX_TOTAL_LOG_BYTES, UNCONFINED_ENV,
};

fn a_module_under_each_confined_crate() -> Vec<String> {
    CONFINED_TARGETS
        .iter()
        .map(|entry| format!("{}::somewhere=trace", entry.split('=').next().expect("a crate")))
        .collect()
}

#[test]
fn the_screen_refuses_a_directive_under_every_confined_crate() {
    let under = a_module_under_each_confined_crate();
    assert!(!under.is_empty(), "there is nothing to confine");

    for directive in &under {
        let screened = screen_directives(directive);
        assert_eq!(
            screened.refused,
            vec![directive.as_str()],
            "a module of a confined crate was honoured"
        );
        assert!(screened.honoured.is_empty(), "{directive} survived");
    }
}

#[test]
fn a_target_that_only_extends_a_confined_crate_is_refused() {
    for directive in ["vte:=trace", "vte::=trace", "portable_pty:=trace"] {
        assert_eq!(
            screen_directives(directive).refused,
            vec![directive],
            "{directive} out-specifies the entry that holds that crate down"
        );
    }
}

#[test]
fn a_span_or_field_directive_is_refused_whatever_target_it_names() {
    for directive in [
        "[x]=trace",
        "nysia_core[x]=trace",
        "[{message}]=trace",
        "[serve{verb=session_create}]=trace",
    ] {
        assert_eq!(
            screen_directives(directive).refused,
            vec![directive],
            "{directive} reaches every target through the span scope"
        );
    }
}

#[test]
fn a_bare_level_and_an_unrelated_target_are_honoured() {
    for directive in [
        "trace",
        "debug",
        "off",
        "nysia_core=debug",
        "nysia_core::rpc::server=trace",
        "vt=trace",
    ] {
        let screened = screen_directives(directive);
        assert_eq!(
            screened.honoured,
            vec![directive],
            "{directive} was refused and did not need to be"
        );
        assert!(screened.refused.is_empty(), "{directive} was refused");
    }
}

#[test]
fn the_rest_of_a_value_survives_one_refusal() {
    let screened = screen_directives("nysia_core=debug,vte::ansi=trace,nysia=trace");

    assert_eq!(screened.honoured, vec!["nysia_core=debug", "nysia=trace"]);
    assert_eq!(screened.refused, vec!["vte::ansi=trace"]);
}

#[test]
fn an_empty_value_asks_for_nothing_and_is_refused_nothing() {
    for asked in ["", ",", ",,"] {
        let screened = screen_directives(asked);
        assert!(screened.honoured.is_empty(), "{asked:?}");
        assert!(screened.refused.is_empty(), "{asked:?}");
    }
}

#[test]
fn white_space_does_not_hide_a_confined_target() {
    let screened = screen_directives("  vte = trace,\tnysia=debug");
    assert_eq!(screened.refused, vec!["  vte = trace"]);
    assert_eq!(screened.honoured, vec!["\tnysia=debug"]);
}

#[test]
fn what_is_said_about_a_refusal_names_the_directive_and_the_way_round_it() {
    let note = refusal_note("vte::ansi=trace");
    assert!(note.contains("vte::ansi=trace"), "{note}");
    assert!(note.contains(LOG_ENV), "{note}");
    assert!(note.contains(UNCONFINED_ENV), "{note}");

    let lifted = unconfined_note();
    assert!(lifted.contains(UNCONFINED_ENV), "{lifted}");
    assert!(lifted.contains(LOG_ENV), "{lifted}");
}

#[test]
fn the_confinement_is_not_lifted_unless_its_own_variable_is_set() {
    assert!(!confinement_lifted(None));
    assert!(!confinement_lifted(Some("")));
    assert!(confinement_lifted(Some("1")));
    assert!(confinement_lifted(Some(" ")));
}

#[test]
fn the_ceiling_is_the_product_of_the_two() {
    assert_eq!(MAX_LOG_BYTES, 8 * 1024 * 1024);
    assert_eq!(KEPT_ROTATIONS, 3);
    assert_eq!(MAX_TOTAL_LOG_BYTES, 32 * 1024 * 1024);
    assert_eq!(MAX_TOTAL_LOG_BYTES, MAX_LOG_BYTES * (KEPT_ROTATIONS as u64 + 1));
}

#[test]
fn a_log_within_the_cap_is_left_alone() {
    let plan = trim_to(Some(9), 64, 3);
    assert_eq!(plan.trimmed, Trimmed::Untouched);
    assert!(plan.shift.is_empty());
}

#[test]
fn a_log_exactly_at_the_cap_is_left_alone() {
    assert_eq!(trim_to(Some(64), 64, 3).trimmed, Trimmed::Untouched);
    assert_eq!(trim_to(Some(64), 63, 3).trimmed, Trimmed::Rotated { bytes: 64 });
}

#[test]
fn a_missing_log_is_not_an_error() {
    assert_eq!(trim(None).trimmed, Trimmed::Untouched);
}

#[test]
fn the_oldest_rotation_is_dropped() {
    let plan = trim(Some(MAX_LOG_BYTES + 1));
    assert_eq!(plan.trimmed, Trimmed::Rotated { bytes: MAX_LOG_BYTES + 1 });
    assert_eq!(plan.shift, vec![2, 1]);

    let mut rotations: std::collections::BTreeMap<usize, u32> = std::collections::BTreeMap::new();
    for generation in 0..(KEPT_ROTATIONS as u32 + 2) {
        for index in trim(Some(MAX_LOG_BYTES + 1)).shift {
            if let Some(moved) = rotations.remove(&index) {
                rotations.insert(index + 1, moved);
            }
        }
        rotations.insert(1, generation);
    }
    assert_eq!(rotations.len(), KEPT_ROTATIONS);
    assert_eq!(rotations[&1], 4);
    assert_eq!(rotations[&2], 3);
    assert_eq!(rotations[&3], 2);
}

#[test]
fn a_rotation_is_named_beside_the_log_it_came_from() {
    let live = "/tmp/runtime/nysiad-v1.log";
    assert_eq!(rotation_path(live, 2), "/tmp/runtime/nysiad-v1.log.2");
}

/// The live log and its rotations, as what each holds.
#[derive(Default)]
struct Disk {
    live: String,
    rotations: std::collections::BTreeMap<usize, String>,
}

impl Disk {
    /// Trim the way a driver does: shift the rotations, copy the live log into the first, and
    /// empty it in place, so that whoever holds it open goes on writing into it.
    fn trim_to(&mut self, cap: u64, kept: usize) -> Trimmed {
        let plan = trim_to(Some(self.live.len() as u64), cap, kept);
        if let Trimmed::Rotated { .. } = plan.trimmed {
            for index in plan.shift {
                if let Some(moved) = self.rotations.remove(&index) {
                    self.rotations.insert(index + 1, moved);
                }
            }
            self.rotations.insert(1, self.live.clone());
            self.live.clear();
        }
        plan.trimmed
    }
}

#[test]
fn rotation_survives_a_writer_holding_the_file_open() {
    let mut disk = Disk::default();
    disk.live.push_str("before the rotation\n");
    assert_eq!(disk.trim_to(8, KEPT_ROTATIONS), Trimmed::Rotated { bytes: 20 });
    disk.live.push_str("after the rotation\n");
    assert_eq!(disk.live, "after the rotation\n");
    assert_eq!(disk.rotations[&1], "before the rotation\n");
}

#[test]
fn a_trim_empties_the_live_log_and_keeps_only_the_policy() {
    let mut disk = Disk::default();
    let cap = 16;
    let burst = 24;
    for _ in 0..(KEPT_ROTATIONS + 3) {
        disk.live.push_str(&"x".repeat(burst));
        disk.trim_to(cap, KEPT_ROTATIONS);
        assert_eq!(disk.live.len(), 0, "a trim left bytes in the live log");
    }
    let kept: Vec<usize> = disk.rotations.keys().copied().collect();
    assert_eq!(kept, (1..=KEPT_ROTATIONS).collect::<Vec<_>>());
    let total: u64 = disk.rotations.values().map(|held| held.len() as u64).sum();
    assert!(total <= (cap + burst as u64) * KEPT_ROTATIONS as u64);
}

#[test]
fn the_real_cap_is_the_one_trim_applies() {
    assert_eq!(trim(Some(MAX_LOG_BYTES)).trimmed, Trimmed::Untouched);
    let crossed = MAX_LOG_BYTES + 29;
    assert_eq!(trim(Some(crossed)).trimmed, Trimmed::Rotated { bytes: crossed });
}
