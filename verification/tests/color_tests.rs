use dsled::color::parse_rgb;

#[test]
fn parse_valid_triple() {
    assert_eq!(parse_rgb("10,20,30"), Ok((10, 20, 30)));
}

#[test]
fn parse_wrong_field_count() {
    assert_eq!(parse_rgb("10,20"), Err("Expected format 'R,G,B'".to_string()));
}

#[test]
fn parse_too_many_fields() {
    assert_eq!(parse_rgb("1,2,3,4"), Err("Expected format 'R,G,B'".to_string()));
}

#[test]
fn parse_empty_token() {
    assert_eq!(parse_rgb(""), Err("Expected format 'R,G,B'".to_string()));
}

#[test]
fn parse_out_of_range_channel() {
    assert_eq!(parse_rgb("10,20,300"), Err("Invalid blue value".to_string()));
}

#[test]
fn parse_out_of_range_red() {
    assert_eq!(parse_rgb("256,1,1"), Err("Invalid red value".to_string()));
}

#[test]
fn parse_non_numeric_channel() {
    assert_eq!(parse_rgb("a,20,30"), Err("Invalid red value".to_string()));
}

#[test]
fn parse_empty_middle_field() {
    assert_eq!(parse_rgb("1,,3"), Err("Invalid green value".to_string()));
}

#[test]
fn parse_trailing_empty_field() {
    assert_eq!(parse_rgb("1,2,"), Err("Invalid blue value".to_string()));
}

#[test]
fn parse_channel_bounds() {
    assert_eq!(parse_rgb("0,0,0"), Ok((0, 0, 0)));
    assert_eq!(parse_rgb("255,255,255"), Ok((255, 255, 255)));
}

#[test]
fn parse_leading_plus_accepted() {
    assert_eq!(parse_rgb("+10,20,+30"), Ok((10, 20, 30)));
}

#[test]
fn parse_plus_alone_rejected() {
    assert_eq!(parse_rgb("+,2,3"), Err("Invalid red value".to_string()));
}

#[test]
fn parse_leading_zeros_accepted() {
    assert_eq!(parse_rgb("007,08,9"), Ok((7, 8, 9)));
}

#[test]
fn parse_whitespace_rejected() {
    assert_eq!(parse_rgb(" 1,2,3"), Err("Invalid red value".to_string()));
    assert_eq!(parse_rgb("1,2 ,3"), Err("Invalid green value".to_string()));
}

#[test]
fn parse_negative_rejected() {
    assert_eq!(parse_rgb("-1,2,3"), Err("Invalid red value".to_string()));
}

#[test]
fn parse_huge_number_rejected() {
    assert_eq!(
        parse_rgb("99999999999999999999,0,0"),
        Err("Invalid red value".to_string())
    );
}

#[test]
fn parse_error_priority_is_red_first() {
    assert_eq!(parse_rgb("x,y,z"), Err("Invalid red value".to_string()));
    assert_eq!(parse_rgb("1,y,z"), Err("Invalid green value".to_string()));
}
