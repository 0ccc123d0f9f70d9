use artist_list::ArtistList;

#[test]
fn parser_input_normal() {
    let result = ArtistList::parse("Petit Rabbit's（ココア（佐倉綾音）、チノ（水瀬いのり）、リゼ（種田梨沙）、千夜（佐藤聡美）、シャロ（内田真礼））、Append")
        .expect("Failed to parse normal artist string");
    assert_eq!(result.len(), 2);

    assert_eq!(result.artists[0].name, "Petit Rabbit's");
    assert!(result.artists[0].references.is_some());

    assert_eq!(result.artists[1].name, "Append");
    assert!(result.artists[1].references.is_none());
}
