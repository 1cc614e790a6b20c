use dsled::report::{create_report, led_report_for, REPORT_LEN};

#[test]
fn report_layout_fixed_bytes() {
    let report = create_report(1, 2, 3);
    assert_eq!(report.len(), REPORT_LEN);
    assert_eq!(report[0], 0x02);
    assert_eq!(report[1], 0xff);
    assert_eq!(report[2], 0xf7);
    assert_eq!(report[45], 1);
    assert_eq!(report[46], 2);
    assert_eq!(report[47], 3);
    for (i, byte) in report.iter().enumerate() {
        if i != 0 && i != 1 && i != 2 && i != 45 && i != 46 && i != 47 {
            assert_eq!(*byte, 0, "byte at offset {} should be zero", i);
        }
    }
}

#[test]
fn report_round_trip_every_channel_value() {
    for v in 0..=255u8 {
        let report = create_report(v, 255 - v, v ^ 0x5a);
        assert_eq!(report[45], v);
        assert_eq!(report[46], 255 - v);
        assert_eq!(report[47], v ^ 0x5a);
    }
}

#[test]
fn report_round_trip_extremes() {
    for (r, g, b) in [(0, 0, 0), (255, 255, 255), (12, 200, 34)] {
        let report = create_report(r, g, b);
        assert_eq!((report[45], report[46], report[47]), (r, g, b));
    }
}

#[test]
fn no_color_means_no_write() {
    assert_eq!(led_report_for(None), None);
}

#[test]
fn color_means_exactly_its_report() {
    let planned = led_report_for(Some((9, 8, 7)));
    assert_eq!(planned, Some(create_report(9, 8, 7)));
}
