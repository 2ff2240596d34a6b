use stitchify::dimensions::Dimensions;
use stitchify::fabric_svg::{is_dark, mm_to_text, stitch_count_text, thread_label, yarn_length};
use stitchify::ratio::Ratio;

fn mm_to_string(mm: u32) -> String {
    let mut result = String::new();

    mm_to_text(&mut result, mm);

    result
}

#[test]
fn test_mm_to_text() {
    assert_eq!(&mm_to_string(1), "1mm");
    assert_eq!(&mm_to_string(9), "9mm");
    assert_eq!(&mm_to_string(10), "1cm");
    assert_eq!(&mm_to_string(11), "1cm");
    assert_eq!(&mm_to_string(15), "2cm");
    assert_eq!(&mm_to_string(19), "2cm");
    assert_eq!(&mm_to_string(994), "99cm");
    assert_eq!(&mm_to_string(995), "1m");
    assert_eq!(&mm_to_string(1000), "1m");
    assert_eq!(&mm_to_string(1100), "1.1m");
    assert_eq!(&mm_to_string(1120), "1.12m");
    assert_eq!(&mm_to_string(1126), "1.13m");
}

#[test]
fn test_stitch_count_text() {
    let mut dimensions = Dimensions::default();
    dimensions.stitches = 30;
    dimensions.gauge_stitches = Ratio::from_int(31);
    dimensions.gauge_rows = Ratio::from_int(57);
    dimensions.duplicate_rows = 1;

    assert_eq!(&stitch_count_text(&dimensions, 31), "31 (30cm)");

    assert_eq!(&stitch_count_text(&dimensions, 46), "46 (45cm)");
}

#[test]
fn stitch_count_text_with_known_length() {
    let mut dimensions = Dimensions::default();
    dimensions.cm_per_stitch = Some(Ratio::from_int(100));

    assert_eq!(&stitch_count_text(&dimensions, 345), "345 (345m)");
}

#[test]
fn mm_to_text_appends() {
    let mut text = String::from("about ");

    mm_to_text(&mut text, 0);
    assert_eq!(&text, "about 0mm");

    assert_eq!(&mm_to_string(1050), "1.05m");
    assert_eq!(&mm_to_string(1004), "1m");
    assert_eq!(&mm_to_string(1005), "1.01m");
    assert_eq!(&mm_to_string(123456), "123.46m");
    assert_eq!(&mm_to_string(u32::MAX), "4294967.3m");
}

fn written_mm(text: &str) -> u32 {
    if let Some(mm) = text.strip_suffix("mm") {
        mm.parse::<u32>().unwrap()
    } else if let Some(cm) = text.strip_suffix("cm") {
        cm.parse::<u32>().unwrap() * 10
    } else {
        let m = text.strip_suffix("m").unwrap();
        match m.split_once('.') {
            Some((whole, decimals)) => {
                let cm = format!("{:0<2}", decimals).parse::<u32>().unwrap();
                whole.parse::<u32>().unwrap() * 1000 + cm * 10
            }
            None => m.parse::<u32>().unwrap() * 1000,
        }
    }
}

#[test]
fn shown_length_never_falls() {
    let mut last = 0;

    for mm in 0..20000u32 {
        let text = mm_to_string(mm);
        let shown = if mm < 10 { mm } else { (mm + 5) / 10 * 10 };

        assert_eq!(written_mm(&text), shown);
        assert!(shown >= last);
        assert!(shown <= mm + 5 && mm <= shown + 4);
        assert_eq!(mm_to_string(shown), text);

        last = shown;
    }

}

#[test]
fn yarn_length_from_the_gauge() {
    let mut dimensions = Dimensions::default();

    // 22 stitches in 10 cm: 300 mm of yarn for each 22 stitches, and one
    // more for the rounding of the half
    assert_eq!(yarn_length(&dimensions, 0), 1);
    assert_eq!(yarn_length(&dimensions, 22), 301);
    assert_eq!(yarn_length(&dimensions, 1), 14);

    dimensions.gauge_stitches = Ratio::new(45, 2);
    assert_eq!(yarn_length(&dimensions, 3), 41);

    dimensions.cm_per_stitch = Some(Ratio::new(5, 4));
    assert_eq!(yarn_length(&dimensions, 3), 38);
    assert_eq!(yarn_length(&dimensions, 2), 25);

    dimensions.cm_per_stitch = Some(Ratio::from_int(u32::MAX));
    assert_eq!(yarn_length(&dimensions, 2), u32::MAX);
}

#[test]
fn thread_labels() {
    assert_eq!(&thread_label(0), "A");
    assert_eq!(&thread_label(1), "B");
    assert_eq!(&thread_label(25), "Z");
    assert_eq!(&thread_label(26), "BA");
    assert_eq!(&thread_label(27), "BB");
    assert_eq!(&thread_label(26 * 26), "BAA");
    assert_eq!(&thread_label(26 * 26 * 3 + 26 * 25 + 7), "DZH");
}

#[test]
fn text_on_dark_colors() {
    assert!(is_dark(&[0, 0, 0]));
    assert!(is_dark(&[127, 128, 128]));
    assert!(!is_dark(&[128, 128, 128]));
    assert!(!is_dark(&[255, 255, 255]));
    assert!(is_dark(&[255, 128, 0]));
    assert!(!is_dark(&[255, 129, 0]));
}
