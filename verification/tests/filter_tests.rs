use kasmctl::display::parse_datetime_to_epoch;
use kasmctl::filters::{parse_duration, format_utc_minus, ImageFilters, SessionFilters};
use kasmctl::models::{Image, Session};

/// A fixed stand-in for the current wall-clock time in tests.
const NOW: u64 = 1_750_000_000;

// --- parse_duration ---

#[test]
fn parse_duration_minutes() {
    assert_eq!(parse_duration("30m").unwrap(), 1800);
}

#[test]
fn parse_duration_hours() {
    assert_eq!(parse_duration("2h").unwrap(), 7200);
}

#[test]
fn parse_duration_days() {
    assert_eq!(parse_duration("1d").unwrap(), 86400);
}

#[test]
fn parse_duration_combined() {
    assert_eq!(parse_duration("1h30m").unwrap(), 5400);
    assert_eq!(parse_duration("1d12h").unwrap(), 129600);
}

#[test]
fn parse_duration_repeated_units_accumulate() {
    assert_eq!(parse_duration("1h1h").unwrap(), 7200);
}

#[test]
fn parse_duration_rejects_empty() {
    assert!(parse_duration("").is_err());
}

#[test]
fn parse_duration_rejects_no_unit() {
    assert!(parse_duration("30").is_err());
}

#[test]
fn parse_duration_rejects_invalid_unit() {
    assert!(parse_duration("30s").is_err());
}

#[test]
fn parse_duration_rejects_mixed_invalid() {
    assert!(parse_duration("1h30x").is_err());
}

#[test]
fn parse_duration_rejects_bare_unit() {
    assert!(parse_duration("m").is_err());
    assert!(parse_duration("1h30").is_err());
}

#[test]
fn parse_duration_rejects_zero() {
    assert!(parse_duration("0m").is_err());
    assert!(parse_duration("0d0h0m").is_err());
}

#[test]
fn parse_duration_rejects_overflow() {
    assert!(parse_duration("999999999999999999d").is_err());
}

#[test]
fn parse_duration_error_names_the_input() {
    assert!(parse_duration("30s").unwrap_err().contains("30s"));
    assert!(parse_duration("30").unwrap_err().contains("30"));
    assert!(parse_duration("0m").unwrap_err().contains("0m"));
    assert!(parse_duration("999999999999999999d")
        .unwrap_err()
        .contains("999999999999999999d"));
}

#[test]
fn validate_error_names_the_input() {
    let filters = SessionFilters {
        idle_for: Some("7x".into()),
        ..Default::default()
    };
    assert!(filters.validate().unwrap_err().contains("7x"));
}

#[test]
fn apply_error_names_the_input() {
    let filters = SessionFilters {
        idle_for: Some("5q".into()),
        ..Default::default()
    };
    let mut sessions = vec![make_session(|_| {})];
    let err = filters.apply(&mut sessions, NOW).unwrap_err();
    assert!(err.contains("5q"));
    assert_eq!(sessions.len(), 1);
}

// --- format_utc_minus ---

#[test]
fn format_utc_minus_formats_canonical_form() {
    let now = parse_datetime_to_epoch("2024-01-15 12:30:45").unwrap();
    assert_eq!(format_utc_minus(now, 3600), "2024-01-15 11:30:45");
    assert_eq!(format_utc_minus(now, 86400), "2024-01-14 12:30:45");
}

#[test]
fn format_utc_minus_saturates_at_epoch() {
    assert_eq!(format_utc_minus(100, 200), "1970-01-01 00:00:00");
}

// --- SessionFilters::apply ---

fn make_session(overrides: impl FnOnce(&mut Session)) -> Session {
    let mut s = Session {
        kasm_id: "test-id".into(),
        operational_status: Some("running".into()),
        image_id: Some("img-1".into()),
        user_id: Some("user-1".into()),
        hostname: Some("host-1".into()),
        created_date: Some("2025-01-15 12:00:00".into()),
        keepalive_date: Some("2025-06-01 10:00:00".into()),
        ..Default::default()
    };
    overrides(&mut s);
    s
}

#[test]
fn filter_by_status() {
    let filters = SessionFilters {
        status: Some("Running".into()),
        ..Default::default()
    };
    let mut sessions = vec![
        make_session(|s| s.operational_status = Some("running".into())),
        make_session(|s| s.operational_status = Some("stopped".into())),
        make_session(|s| s.operational_status = Some("RUNNING".into())),
    ];
    filters.apply(&mut sessions, NOW).unwrap();
    assert_eq!(sessions.len(), 2);
    assert!(
        sessions
            .iter()
            .all(|s| s.operational_status.as_ref().unwrap().to_lowercase() == "running")
    );
}

#[test]
fn filter_by_image() {
    let filters = SessionFilters {
        image: Some("img-1".into()),
        ..Default::default()
    };
    let mut sessions = vec![
        make_session(|s| s.image_id = Some("img-1".into())),
        make_session(|s| s.image_id = Some("img-2".into())),
    ];
    filters.apply(&mut sessions, NOW).unwrap();
    assert_eq!(sessions.len(), 1);
    assert_eq!(sessions[0].image_id.as_deref(), Some("img-1"));
}

#[test]
fn filter_by_user() {
    let filters = SessionFilters {
        user: Some("user-1".into()),
        ..Default::default()
    };
    let mut sessions = vec![
        make_session(|s| s.user_id = Some("user-1".into())),
        make_session(|s| s.user_id = Some("user-2".into())),
    ];
    filters.apply(&mut sessions, NOW).unwrap();
    assert_eq!(sessions.len(), 1);
    assert_eq!(sessions[0].user_id.as_deref(), Some("user-1"));
}

#[test]
fn filter_by_host() {
    let filters = SessionFilters {
        host: Some("host-1".into()),
        ..Default::default()
    };
    let mut sessions = vec![
        make_session(|s| s.hostname = Some("host-1".into())),
        make_session(|s| s.hostname = Some("host-2".into())),
    ];
    filters.apply(&mut sessions, NOW).unwrap();
    assert_eq!(sessions.len(), 1);
    assert_eq!(sessions[0].hostname.as_deref(), Some("host-1"));
}

#[test]
fn filter_by_created_before() {
    let filters = SessionFilters {
        created_before: Some("2025-02-01 00:00:00".into()),
        ..Default::default()
    };
    let mut sessions = vec![
        make_session(|s| s.created_date = Some("2025-01-15 12:00:00".into())),
        make_session(|s| s.created_date = Some("2025-03-01 12:00:00".into())),
    ];
    filters.apply(&mut sessions, NOW).unwrap();
    assert_eq!(sessions.len(), 1);
    assert_eq!(
        sessions[0].created_date.as_deref(),
        Some("2025-01-15 12:00:00")
    );
}

#[test]
fn filter_by_created_after() {
    let filters = SessionFilters {
        created_after: Some("2025-02-01 00:00:00".into()),
        ..Default::default()
    };
    let mut sessions = vec![
        make_session(|s| s.created_date = Some("2025-01-15 12:00:00".into())),
        make_session(|s| s.created_date = Some("2025-03-01 12:00:00".into())),
    ];
    filters.apply(&mut sessions, NOW).unwrap();
    assert_eq!(sessions.len(), 1);
    assert_eq!(
        sessions[0].created_date.as_deref(),
        Some("2025-03-01 12:00:00")
    );
}

#[test]
fn filter_by_idle_since() {
    let filters = SessionFilters {
        idle_since: Some("2025-06-01 12:00:00".into()),
        ..Default::default()
    };
    let mut sessions = vec![
        make_session(|s| s.keepalive_date = Some("2025-06-01 10:00:00".into())),
        make_session(|s| s.keepalive_date = Some("2025-06-01 14:00:00".into())),
    ];
    filters.apply(&mut sessions, NOW).unwrap();
    assert_eq!(sessions.len(), 1);
    assert_eq!(
        sessions[0].keepalive_date.as_deref(),
        Some("2025-06-01 10:00:00")
    );
}

#[test]
fn filter_by_idle_for_end_to_end() {
    // now - 1h is the threshold: records whose keepalive date lies strictly
    // before it are retained, newer or missing ones are dropped.
    let now = parse_datetime_to_epoch("2026-06-01 12:00:00").unwrap();
    let filters = SessionFilters {
        idle_for: Some("1h".into()),
        ..Default::default()
    };
    let mut sessions = vec![
        make_session(|s| s.keepalive_date = Some("2026-06-01 10:00:00".into())),
        make_session(|s| s.keepalive_date = Some("2026-06-01 11:30:00".into())),
        make_session(|s| s.keepalive_date = Some("2026-06-01 11:00:00".into())),
        make_session(|s| s.keepalive_date = None),
    ];
    filters.apply(&mut sessions, now).unwrap();
    assert_eq!(sessions.len(), 1);
    assert_eq!(
        sessions[0].keepalive_date.as_deref(),
        Some("2026-06-01 10:00:00")
    );
}

#[test]
fn filter_combined() {
    let filters = SessionFilters {
        status: Some("running".into()),
        image: Some("img-1".into()),
        ..Default::default()
    };
    let mut sessions = vec![
        make_session(|s| {
            s.operational_status = Some("running".into());
            s.image_id = Some("img-1".into());
        }),
        make_session(|s| {
            s.operational_status = Some("running".into());
            s.image_id = Some("img-2".into());
        }),
        make_session(|s| {
            s.operational_status = Some("stopped".into());
            s.image_id = Some("img-1".into());
        }),
    ];
    filters.apply(&mut sessions, NOW).unwrap();
    assert_eq!(sessions.len(), 1);
    assert_eq!(sessions[0].operational_status.as_deref(), Some("running"));
    assert_eq!(sessions[0].image_id.as_deref(), Some("img-1"));
}

#[test]
fn filter_no_filters_retains_all() {
    let filters = SessionFilters::default();
    let mut sessions = vec![
        make_session(|_| {}),
        make_session(|_| {}),
        make_session(|_| {}),
    ];
    filters.apply(&mut sessions, NOW).unwrap();
    assert_eq!(sessions.len(), 3);
}

#[test]
fn apply_with_invalid_idle_for_returns_error() {
    let filters = SessionFilters {
        idle_for: Some("30s".into()),
        ..Default::default()
    };
    let mut sessions = vec![make_session(|_| {})];
    assert!(filters.apply(&mut sessions, NOW).is_err());
    assert_eq!(sessions.len(), 1);
}

// --- SessionFilters::validate ---

#[test]
fn validate_returns_error_on_invalid_idle_for() {
    let filters = SessionFilters {
        idle_for: Some("30s".into()),
        ..Default::default()
    };
    assert!(filters.validate().is_err());
}

#[test]
fn validate_succeeds_with_valid_idle_for() {
    let filters = SessionFilters {
        idle_for: Some("1h30m".into()),
        ..Default::default()
    };
    assert!(filters.validate().is_ok());
}

#[test]
fn validate_succeeds_when_no_filters() {
    assert!(SessionFilters::default().validate().is_ok());
}

// --- SessionFilters::is_empty ---

#[test]
fn is_empty_when_default() {
    assert!(SessionFilters::default().is_empty());
}

#[test]
fn is_empty_false_when_any_set() {
    assert!(
        !SessionFilters {
            status: Some("running".into()),
            ..Default::default()
        }
        .is_empty()
    );

    assert!(
        !SessionFilters {
            image: Some("img-1".into()),
            ..Default::default()
        }
        .is_empty()
    );

    assert!(
        !SessionFilters {
            user: Some("user-1".into()),
            ..Default::default()
        }
        .is_empty()
    );

    assert!(
        !SessionFilters {
            host: Some("host-1".into()),
            ..Default::default()
        }
        .is_empty()
    );

    assert!(
        !SessionFilters {
            created_before: Some("2025-01-01 00:00:00".into()),
            ..Default::default()
        }
        .is_empty()
    );

    assert!(
        !SessionFilters {
            created_after: Some("2025-01-01 00:00:00".into()),
            ..Default::default()
        }
        .is_empty()
    );

    assert!(
        !SessionFilters {
            idle_since: Some("2025-01-01 00:00:00".into()),
            ..Default::default()
        }
        .is_empty()
    );

    assert!(
        !SessionFilters {
            idle_for: Some("1h".into()),
            ..Default::default()
        }
        .is_empty()
    );
}

// --- ImageFilters ---

fn make_image(overrides: impl FnOnce(&mut Image)) -> Image {
    let mut img = Image {
        image_id: "img-1".into(),
        friendly_name: Some("Ubuntu 22.04".into()),
        name: Some("kasmweb/ubuntu-jammy:1.15".into()),
        description: Some("Ubuntu desktop".into()),
        enabled: Some(true),
        memory: Some(2_147_483_648),
        image_src: Some("Container".into()),
    };
    overrides(&mut img);
    img
}

#[test]
fn image_filter_by_enabled() {
    let filters = ImageFilters {
        enabled: true,
        ..Default::default()
    };
    let mut images = vec![
        make_image(|i| i.enabled = Some(true)),
        make_image(|i| i.enabled = Some(false)),
    ];
    filters.apply(&mut images);
    assert_eq!(images.len(), 1);
    assert_eq!(images[0].enabled, Some(true));
}

#[test]
fn image_filter_by_disabled() {
    let filters = ImageFilters {
        disabled: true,
        ..Default::default()
    };
    let mut images = vec![
        make_image(|i| i.enabled = Some(true)),
        make_image(|i| i.enabled = Some(false)),
    ];
    filters.apply(&mut images);
    assert_eq!(images.len(), 1);
    assert_eq!(images[0].enabled, Some(false));
}

#[test]
fn image_filter_enabled_excludes_none() {
    let filters = ImageFilters {
        enabled: true,
        ..Default::default()
    };
    let mut images = vec![
        make_image(|i| i.enabled = Some(true)),
        make_image(|i| i.enabled = None),
    ];
    filters.apply(&mut images);
    assert_eq!(images.len(), 1);
    assert_eq!(images[0].enabled, Some(true));
}

#[test]
fn image_filter_by_name_case_insensitive() {
    let filters = ImageFilters {
        name: Some("Ubuntu".into()),
        ..Default::default()
    };
    let mut images = vec![
        make_image(|i| i.friendly_name = Some("ubuntu 22.04".into())),
        make_image(|i| i.friendly_name = Some("Fedora 39".into())),
    ];
    filters.apply(&mut images);
    assert_eq!(images.len(), 1);
    assert_eq!(images[0].friendly_name.as_deref(), Some("ubuntu 22.04"));
}

#[test]
fn image_filter_by_name_substring() {
    let filters = ImageFilters {
        name: Some("buntu".into()),
        ..Default::default()
    };
    let mut images = vec![
        make_image(|i| i.friendly_name = Some("Ubuntu 22.04".into())),
        make_image(|i| i.friendly_name = Some("Fedora 39".into())),
    ];
    filters.apply(&mut images);
    assert_eq!(images.len(), 1);
    assert_eq!(images[0].friendly_name.as_deref(), Some("Ubuntu 22.04"));
}

#[test]
fn image_filter_by_name_no_match() {
    let filters = ImageFilters {
        name: Some("fedora".into()),
        ..Default::default()
    };
    let mut images = vec![make_image(|i| {
        i.friendly_name = Some("Ubuntu 22.04".into())
    })];
    filters.apply(&mut images);
    assert_eq!(images.len(), 0);
}

#[test]
fn image_filter_by_name_excludes_none_friendly_name() {
    let filters = ImageFilters {
        name: Some("ubuntu".into()),
        ..Default::default()
    };
    let mut images = vec![
        make_image(|i| i.friendly_name = Some("Ubuntu 22.04".into())),
        make_image(|i| i.friendly_name = None),
    ];
    filters.apply(&mut images);
    assert_eq!(images.len(), 1);
    assert_eq!(images[0].friendly_name.as_deref(), Some("Ubuntu 22.04"));
}

#[test]
fn image_filter_by_image_type_case_insensitive() {
    let filters = ImageFilters {
        image_type: Some("container".into()),
        ..Default::default()
    };
    let mut images = vec![
        make_image(|i| i.image_src = Some("Container".into())),
        make_image(|i| i.image_src = Some("Server".into())),
    ];
    filters.apply(&mut images);
    assert_eq!(images.len(), 1);
    assert_eq!(images[0].image_src.as_deref(), Some("Container"));
}

#[test]
fn image_filter_by_image_type_exact_not_substring() {
    let filters = ImageFilters {
        image_type: Some("contain".into()),
        ..Default::default()
    };
    let mut images = vec![make_image(|i| i.image_src = Some("Container".into()))];
    filters.apply(&mut images);
    assert_eq!(images.len(), 0);
}

#[test]
fn image_filter_combined() {
    let filters = ImageFilters {
        enabled: true,
        name: Some("ubuntu".into()),
        image_type: Some("Container".into()),
        ..Default::default()
    };
    let mut images = vec![
        // matches all filters
        make_image(|i| {
            i.enabled = Some(true);
            i.friendly_name = Some("Ubuntu 22.04".into());
            i.image_src = Some("Container".into());
        }),
        // wrong enabled
        make_image(|i| {
            i.enabled = Some(false);
            i.friendly_name = Some("Ubuntu 20.04".into());
            i.image_src = Some("Container".into());
        }),
        // wrong name
        make_image(|i| {
            i.enabled = Some(true);
            i.friendly_name = Some("Fedora 39".into());
            i.image_src = Some("Container".into());
        }),
        // wrong type
        make_image(|i| {
            i.enabled = Some(true);
            i.friendly_name = Some("Ubuntu 24.04".into());
            i.image_src = Some("Server".into());
        }),
    ];
    filters.apply(&mut images);
    assert_eq!(images.len(), 1);
    assert_eq!(images[0].friendly_name.as_deref(), Some("Ubuntu 22.04"));
}

#[test]
fn image_filter_no_filters_retains_all() {
    let filters = ImageFilters::default();
    let mut images = vec![make_image(|_| {}), make_image(|_| {}), make_image(|_| {})];
    filters.apply(&mut images);
    assert_eq!(images.len(), 3);
}

#[test]
fn image_is_empty_when_default() {
    assert!(ImageFilters::default().is_empty());
    assert!(
        !ImageFilters {
            enabled: true,
            ..Default::default()
        }
        .is_empty()
    );
    assert!(
        !ImageFilters {
            disabled: true,
            ..Default::default()
        }
        .is_empty()
    );
    assert!(
        !ImageFilters {
            name: Some("x".into()),
            ..Default::default()
        }
        .is_empty()
    );
    assert!(
        !ImageFilters {
            image_type: Some("x".into()),
            ..Default::default()
        }
        .is_empty()
    );
}
