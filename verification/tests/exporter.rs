use tapo_exporter::device::{ChildDevice, DeviceInfo, DeviceKind, PowerUse};
use tapo_exporter::device::{model_kind, plug_children};
use tapo_exporter::metrics::{AppState, ChildReading, DeviceReport};
use tapo_exporter::server::{health_probe_ok, health_response, metrics_response};

fn child(device_id: &str, nickname: &str, position: u8, watts: u64) -> ChildReading {
    ChildReading {
        child: ChildDevice {
            device_id: device_id.to_string(),
            nickname: nickname.to_string(),
            position,
        },
        watts,
    }
}

fn info(power_strip_id: &str, model: &str, firmware_version: &str) -> DeviceInfo {
    DeviceInfo {
        power_strip_id: power_strip_id.to_string(),
        model: model.to_string(),
        firmware_version: firmware_version.to_string(),
    }
}

#[test]
fn get_metrics() {
    let mut state = AppState::new();
    let reports = vec![DeviceReport::Complete {
        info: info("123", "catwalk", ""),
        readings: vec![child("456", "", 1, 45)],
    }];
    let reply = metrics_response(&mut state, &reports);
    assert_eq!(reply.status, 200);
    assert_eq!(
        reply.content_type.as_deref(),
        Some("application/openmetrics-text; version=1.0.0; charset=utf-8")
    );
    let expected = "# HELP power_use_watts Current power use in watts.\n\
        # TYPE power_use_watts gauge\n\
        power_use_watts{power_strip_id=\"123\",device_id=\"456\",nickname=\"\",position=\"1\"} 45\n\
        # HELP device_info Device information.\n\
        # TYPE device_info gauge\n\
        device_info{power_strip_id=\"123\",model=\"catwalk\",firmware_version=\"\"} 1\n\
        # EOF\n";
    assert_eq!(reply.body, expected);
}

#[test]
fn get_health() {
    let reply = health_response();
    assert_eq!(reply.status, 200);
    assert_eq!(reply.body, "");
    assert!(reply.content_type.is_none());
}

#[test]
fn first_scrape_lists_every_device_and_child() {
    let mut state = AppState::new();
    let reports = vec![
        DeviceReport::Complete {
            info: info("strip-1", "P304M", "1.0"),
            readings: vec![child("a", "lamp", 1, 12), child("b", "fan", 2, 30)],
        },
        DeviceReport::Complete {
            info: info("plug-1", "P110M", "2.0"),
            readings: vec![child("plug-1", "heater", 0, 900)],
        },
    ];
    let reply = metrics_response(&mut state, &reports);
    assert_eq!(reply.status, 200);
    let expected = "# HELP power_use_watts Current power use in watts.\n\
        # TYPE power_use_watts gauge\n\
        power_use_watts{power_strip_id=\"strip-1\",device_id=\"a\",nickname=\"lamp\",position=\"1\"} 12\n\
        power_use_watts{power_strip_id=\"strip-1\",device_id=\"b\",nickname=\"fan\",position=\"2\"} 30\n\
        power_use_watts{power_strip_id=\"plug-1\",device_id=\"plug-1\",nickname=\"heater\",position=\"0\"} 900\n\
        # HELP device_info Device information.\n\
        # TYPE device_info gauge\n\
        device_info{power_strip_id=\"strip-1\",model=\"P304M\",firmware_version=\"1.0\"} 1\n\
        device_info{power_strip_id=\"plug-1\",model=\"P110M\",firmware_version=\"2.0\"} 1\n\
        # EOF\n";
    assert_eq!(reply.body, expected);
}

#[test]
fn repeated_scrape_is_byte_identical() {
    let mut state = AppState::new();
    let reports = vec![
        DeviceReport::Complete {
            info: info("strip-1", "P304M", "1.0"),
            readings: vec![child("a", "lamp", 1, 12), child("b", "fan", 2, 30)],
        },
        DeviceReport::Complete {
            info: info("plug-1", "P110M", "2.0"),
            readings: vec![child("plug-1", "heater", 0, 900)],
        },
    ];
    let first = metrics_response(&mut state, &reports);
    let second = metrics_response(&mut state, &reports);
    assert_eq!(first.status, 200);
    assert_eq!(second.status, 200);
    assert_eq!(first.body, second.body);
}

#[test]
fn failed_second_device_keeps_first_devices_series() {
    let mut state = AppState::new();
    let both = vec![
        DeviceReport::Complete {
            info: info("one", "P110M", ""),
            readings: vec![child("one", "", 0, 7)],
        },
        DeviceReport::Complete {
            info: info("two", "P110M", ""),
            readings: vec![child("two", "", 0, 9)],
        },
    ];
    let reply = metrics_response(&mut state, &both);
    assert_eq!(reply.status, 200);

    // The second device now fails its identity query: the scrape fails as a
    // whole and the body is the error text alone.
    let second_fails = vec![
        DeviceReport::Complete {
            info: info("one", "P110M", ""),
            readings: vec![child("one", "", 0, 8)],
        },
        DeviceReport::Failed { error: "device unreachable".to_string() },
    ];
    let reply = metrics_response(&mut state, &second_fails);
    assert_eq!(reply.status, 500);
    assert_eq!(reply.body, "device unreachable");
    assert!(reply.content_type.is_none());

    // A later clean sweep of the first device alone still exposes the second
    // device's series at their last recorded values: label sets are never
    // evicted.
    let only_first = vec![DeviceReport::Complete {
        info: info("one", "P110M", ""),
        readings: vec![child("one", "", 0, 8)],
    }];
    let reply = metrics_response(&mut state, &only_first);
    assert_eq!(reply.status, 200);
    let expected = "# HELP power_use_watts Current power use in watts.\n\
        # TYPE power_use_watts gauge\n\
        power_use_watts{power_strip_id=\"one\",device_id=\"one\",nickname=\"\",position=\"0\"} 8\n\
        power_use_watts{power_strip_id=\"two\",device_id=\"two\",nickname=\"\",position=\"0\"} 9\n\
        # HELP device_info Device information.\n\
        # TYPE device_info gauge\n\
        device_info{power_strip_id=\"one\",model=\"P110M\",firmware_version=\"\"} 1\n\
        device_info{power_strip_id=\"two\",model=\"P110M\",firmware_version=\"\"} 1\n\
        # EOF\n";
    assert_eq!(reply.body, expected);
}

#[test]
fn interrupted_device_keeps_what_it_read() {
    let mut state = AppState::new();
    let reports = vec![DeviceReport::Interrupted {
        info: info("strip-1", "P304M", ""),
        readings: vec![child("a", "", 1, 5)],
        error: "child b timed out".to_string(),
    }];
    let reply = metrics_response(&mut state, &reports);
    assert_eq!(reply.status, 500);
    assert_eq!(reply.body, "child b timed out");

    // What was read before the failure was recorded and shows up in the next
    // successful scrape.
    let no_reports: Vec<DeviceReport> = Vec::new();
    let reply = metrics_response(&mut state, &no_reports);
    assert_eq!(reply.status, 200);
    let expected = "# HELP power_use_watts Current power use in watts.\n\
        # TYPE power_use_watts gauge\n\
        power_use_watts{power_strip_id=\"strip-1\",device_id=\"a\",nickname=\"\",position=\"1\"} 5\n\
        # HELP device_info Device information.\n\
        # TYPE device_info gauge\n\
        device_info{power_strip_id=\"strip-1\",model=\"P304M\",firmware_version=\"\"} 1\n\
        # EOF\n";
    assert_eq!(reply.body, expected);
}

#[test]
fn update_metrics_reports_first_error_only() {
    let mut state = AppState::new();
    let reports = vec![
        DeviceReport::Failed { error: "first down".to_string() },
        DeviceReport::Failed { error: "second down".to_string() },
    ];
    let result = state.update_metrics(&reports);
    assert_eq!(result, Err("first down".to_string()));
}

#[test]
fn update_metrics_succeeds_on_empty_sweep() {
    let mut state = AppState::new();
    let no_reports: Vec<DeviceReport> = Vec::new();
    let result = state.update_metrics(&no_reports);
    assert_eq!(result, Ok(()));
}

#[test]
fn plug_yields_one_child_at_position_zero() {
    let children = plug_children("plug-9".to_string(), "desk".to_string());
    assert_eq!(children.len(), 1);
    assert_eq!(children[0].device_id, "plug-9");
    assert_eq!(children[0].nickname, "desk");
    assert_eq!(children[0].position, 0);
}

#[test]
fn strip_with_three_children_yields_three_series() {
    let mut state = AppState::new();
    let reports = vec![DeviceReport::Complete {
        info: info("s", "P304M", ""),
        readings: vec![child("c1", "", 1, 1), child("c2", "", 2, 2), child("c3", "", 3, 3)],
    }];
    let reply = metrics_response(&mut state, &reports);
    assert_eq!(reply.status, 200);
    let series: Vec<&str> = reply
        .body
        .lines()
        .filter(|l| l.starts_with("power_use_watts{"))
        .collect();
    assert_eq!(series.len(), 3);
    assert_eq!(
        series[0],
        "power_use_watts{power_strip_id=\"s\",device_id=\"c1\",nickname=\"\",position=\"1\"} 1"
    );
    assert_eq!(
        series[1],
        "power_use_watts{power_strip_id=\"s\",device_id=\"c2\",nickname=\"\",position=\"2\"} 2"
    );
    assert_eq!(
        series[2],
        "power_use_watts{power_strip_id=\"s\",device_id=\"c3\",nickname=\"\",position=\"3\"} 3"
    );
}

#[test]
fn overwrite_keeps_one_series_per_label_set() {
    let mut state = AppState::new();
    let first = vec![DeviceReport::Complete {
        info: info("s", "P304M", ""),
        readings: vec![child("c1", "", 1, 10)],
    }];
    let second = vec![DeviceReport::Complete {
        info: info("s", "P304M", ""),
        readings: vec![child("c1", "", 1, 20)],
    }];
    metrics_response(&mut state, &first);
    let reply = metrics_response(&mut state, &second);
    assert_eq!(reply.status, 200);
    let expected = "# HELP power_use_watts Current power use in watts.\n\
        # TYPE power_use_watts gauge\n\
        power_use_watts{power_strip_id=\"s\",device_id=\"c1\",nickname=\"\",position=\"1\"} 20\n\
        # HELP device_info Device information.\n\
        # TYPE device_info gauge\n\
        device_info{power_strip_id=\"s\",model=\"P304M\",firmware_version=\"\"} 1\n\
        # EOF\n";
    assert_eq!(reply.body, expected);
}

#[test]
fn label_values_are_escaped() {
    let mut state = AppState::new();
    let reports = vec![DeviceReport::Complete {
        info: info("s", "mo\"del", "f\\w"),
        readings: vec![child("c1", "two\nlines", 1, 3)],
    }];
    let reply = metrics_response(&mut state, &reports);
    assert_eq!(reply.status, 200);
    assert!(reply.body.contains(
        "power_use_watts{power_strip_id=\"s\",device_id=\"c1\",nickname=\"two\\nlines\",position=\"1\"} 3\n"
    ));
    assert!(reply
        .body
        .contains("device_info{power_strip_id=\"s\",model=\"mo\\\"del\",firmware_version=\"f\\\\w\"} 1\n"));
}

#[test]
fn wattage_above_signed_range_wraps_like_a_cast() {
    let mut state = AppState::new();
    let reports = vec![DeviceReport::Complete {
        info: info("s", "P110M", ""),
        readings: vec![child("s", "", 0, u64::MAX)],
    }];
    let reply = metrics_response(&mut state, &reports);
    assert_eq!(reply.status, 200);
    assert!(reply.body.contains(
        "power_use_watts{power_strip_id=\"s\",device_id=\"s\",nickname=\"\",position=\"0\"} -1\n"
    ));
}

#[test]
fn model_strings_resolve_to_device_kinds() {
    assert!(matches!(model_kind(&"P304M".to_string()), Some(DeviceKind::PowerStrip)));
    assert!(matches!(model_kind(&"P110M".to_string()), Some(DeviceKind::Plug)));
    assert!(model_kind(&"P100".to_string()).is_none());
    assert!(model_kind(&"".to_string()).is_none());
}

#[test]
fn health_probe_accepts_success_and_rejects_errors() {
    assert!(health_probe_ok(200));
    assert!(health_probe_ok(204));
    assert!(health_probe_ok(399));
    assert!(!health_probe_ok(400));
    assert!(!health_probe_ok(404));
    assert!(!health_probe_ok(500));
    assert!(!health_probe_ok(599));
    assert!(health_probe_ok(600));
}

#[test]
fn power_use_label_set_is_distinct_per_child() {
    let a = PowerUse {
        power_strip_id: "s".to_string(),
        device_id: "c1".to_string(),
        nickname: "".to_string(),
        position: 1,
    };
    let b = PowerUse {
        power_strip_id: "s".to_string(),
        device_id: "c2".to_string(),
        nickname: "".to_string(),
        position: 2,
    };
    assert_eq!(a.power_strip_id, b.power_strip_id);
    assert_ne!(a.device_id, b.device_id);
}
