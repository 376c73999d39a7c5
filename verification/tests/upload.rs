use cookie_session::upload::{
    extension_of, next_stem, numbered_stem_of, parse_number, stored_name_of, upload_extension,
};

fn names(list: &[&str]) -> Vec<Vec<u8>> {
    list.iter().map(|name| name.as_bytes().to_vec()).collect()
}

#[test]
fn the_extension_follows_the_last_dot() {
    assert_eq!(extension_of(b"photo.jpg"), Some(b"jpg".to_vec()));
    assert_eq!(extension_of(b"archive.tar.gz"), Some(b"gz".to_vec()));
    assert_eq!(extension_of(b".hidden"), Some(b"hidden".to_vec()));
    assert_eq!(extension_of(b"trailing."), Some(Vec::new()));
    assert_eq!(extension_of(b"."), Some(Vec::new()));
}

#[test]
fn a_name_without_dot_has_no_extension() {
    assert_eq!(extension_of(b""), None);
    assert_eq!(extension_of(b"photo"), None);
    assert_eq!(extension_of(b"photo jpg"), None);
}

#[test]
fn an_upload_name_is_cleaned_before_its_extension_is_taken() {
    assert_eq!(upload_extension("holiday.png"), Some(b"png".to_vec()));
    // The slashes and the colon are taken out, the dots stay.
    assert_eq!(upload_extension("../../etc/pass:wd.p/n\\g"), Some(b"png".to_vec()));
    assert_eq!(upload_extension("a.j?p*g"), Some(b"jpg".to_vec()));
    assert_eq!(upload_extension("caf\u{e9}.\u{fc}ber"), Some("\u{fc}ber".as_bytes().to_vec()));
    assert_eq!(upload_extension("noextension"), None);
    // A name of dots only is taken out altogether.
    assert_eq!(upload_extension(".."), None);
    assert_eq!(upload_extension("a/b"), None);
}

#[test]
fn reads_numbers_of_thirty_two_bits() {
    assert_eq!(parse_number(b"0"), Some(0));
    assert_eq!(parse_number(b"17"), Some(17));
    assert_eq!(parse_number(b"007"), Some(7));
    assert_eq!(parse_number(b"+42"), Some(42));
    assert_eq!(parse_number(b"4294967295"), Some(u32::MAX));
    assert_eq!(parse_number(b"0000000000004294967295"), Some(u32::MAX));
}

#[test]
fn reads_no_number_from_anything_else() {
    assert_eq!(parse_number(b""), None);
    assert_eq!(parse_number(b"+"), None);
    assert_eq!(parse_number(b"-1"), None);
    assert_eq!(parse_number(b"++1"), None);
    assert_eq!(parse_number(b"1+"), None);
    assert_eq!(parse_number(b"12a"), None);
    assert_eq!(parse_number(b" 12"), None);
    assert_eq!(parse_number(b"4294967296"), None);
    assert_eq!(parse_number(b"99999999999999999999999999"), None);
}

#[test]
fn reads_numbers_as_the_standard_library_does() {
    for text in ["0", "1", "+1", "-1", "", "+", "4294967295", "4294967296", "12x", "0012", "1_000"] {
        assert_eq!(parse_number(text.as_bytes()), text.parse::<u32>().ok(), "{:?}", text);
    }
}

#[test]
fn keeps_the_stem_of_a_stored_name_where_it_is_a_number() {
    assert_eq!(numbered_stem_of(b"12.jpg"), b"12".to_vec());
    assert_eq!(numbered_stem_of(b"012.tar.gz"), b"012".to_vec());
    assert_eq!(numbered_stem_of(b"+5.png"), b"+5".to_vec());
    assert_eq!(numbered_stem_of(b"7"), b"7".to_vec());
}

#[test]
fn keeps_nothing_of_a_stored_name_without_a_number() {
    assert_eq!(numbered_stem_of(b"cat.jpg"), Vec::<u8>::new());
    assert_eq!(numbered_stem_of(b".jpg"), Vec::<u8>::new());
    assert_eq!(numbered_stem_of(b""), Vec::<u8>::new());
    assert_eq!(numbered_stem_of(b"4294967296.jpg"), Vec::<u8>::new());
    assert_eq!(numbered_stem_of(b"1a.2"), Vec::<u8>::new());
}

#[test]
fn joins_stem_and_extension_with_a_dot() {
    assert_eq!(stored_name_of(b"12", b"jpg"), b"12.jpg".to_vec());
    assert_eq!(stored_name_of(b"", b"png"), b".png".to_vec());
    assert_eq!(stored_name_of(b"3", b""), b"3.".to_vec());
}

#[test]
fn the_first_photo_of_an_album_is_number_one() {
    assert_eq!(next_stem(&names(&[]), &names(&[])), b"1".to_vec());
    assert_eq!(next_stem(&names(&["cover.jpg", "notes"]), &names(&["x.png"])), b"1".to_vec());
}

#[test]
fn the_next_photo_follows_the_largest_number_in_folder_and_store() {
    assert_eq!(next_stem(&names(&["1.jpg", "2.png"]), &names(&["1.jpg"])), b"3".to_vec());
    assert_eq!(next_stem(&names(&["1.jpg"]), &names(&["9.gif", "3.jpg"])), b"10".to_vec());
    assert_eq!(next_stem(&names(&["7", "cat.jpg", "+12.png"]), &names(&[])), b"13".to_vec());
    assert_eq!(
        next_stem(&names(&["4294967295.jpg"]), &names(&["4294967296.jpg"])),
        b"4294967296".to_vec()
    );
}
