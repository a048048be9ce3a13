use victuner::kb_rgb_effects::screen_color::{parse_color, percent_fields};

#[test]
fn integer_channels() {
    let out = "# ImageMagick pixel enumeration: 1,1,255,srgb\n0,0: (42,39,46)  #2A272E  srgb(42,39,46)\n";
    assert!(percent_fields(out).is_empty());
    assert_eq!(parse_color(out, &vec![]), Some((42, 39, 46)));
}

#[test]
fn integer_channels_with_spaces() {
    assert_eq!(parse_color("srgb( 1 , 2 ,3 )", &vec![]), Some((1, 2, 3)));
}

#[test]
fn percentage_channels() {
    let out = "0,0: (16.39%,15.43%,17.88%)  #2A272E  srgb(16.39%,15.43%,17.88%)";
    let p = percent_fields(out);
    assert_eq!(p, vec!["16.39".to_string(), "15.43".to_string(), "17.88".to_string()]);
    assert_eq!(parse_color(out, &vec![Some(42), Some(39), Some(46)]), Some((42, 39, 46)));
}

#[test]
fn unconvertible_percentage_is_skipped() {
    let out = "srgb(10%,x%,20%,30)";
    assert_eq!(percent_fields(out), vec!["10".to_string(), "x".to_string(), "20".to_string()]);
    assert_eq!(parse_color(out, &vec![Some(26), None, Some(51)]), Some((26, 51, 30)));
}

#[test]
fn missing_percentage_values_count_as_absent() {
    assert_eq!(parse_color("srgb(10%,20%,30%)", &vec![Some(1)]), None);
}

#[test]
fn no_srgb_or_no_parenthesis() {
    assert_eq!(parse_color("rgb(1,2,3)", &vec![]), None);
    assert_eq!(parse_color("srgb(1,2,3", &vec![]), None);
    assert!(percent_fields("srgb(1%,2%,3%").is_empty());
}

#[test]
fn wrong_number_of_values() {
    assert_eq!(parse_color("srgb(1,2)", &vec![]), None);
    assert_eq!(parse_color("srgb(1,2,3,4)", &vec![]), None);
    assert_eq!(parse_color("srgb(1,2,300)", &vec![]), None);
    assert_eq!(parse_color("srgb(1,2,300,4)", &vec![]), Some((1, 2, 4)));
}

#[test]
fn first_srgb_and_first_parenthesis_after_it() {
    assert_eq!(parse_color("x) srgb(1,2,3) srgb(4,5,6)", &vec![]), Some((1, 2, 3)));
}
