use artist_list::Tokens;

#[test]
fn lexer_input_normal() {
    let result = Tokens::parse("Petit Rabbit's（ココア（佐倉綾音）、チノ（水瀬いのり）、リゼ（種田梨沙）、千夜（佐藤聡美）、シャロ（内田真礼））、Append、、、、、");
    assert_eq!(result.inner.len(), 30);
    assert_eq!(result.inner[0].image, "Petit Rabbit's");
    assert_eq!(result.inner[2].image, "ココア");
    assert_eq!(result.inner[4].image, "佐倉綾音");
    assert_eq!(result.inner[7].image, "チノ");
    assert_eq!(result.inner[9].image, "水瀬いのり");
    assert_eq!(result.inner[12].image, "リゼ");
    assert_eq!(result.inner[14].image, "種田梨沙");
    assert_eq!(result.inner[17].image, "千夜");
    assert_eq!(result.inner[19].image, "佐藤聡美");
    assert_eq!(result.inner[22].image, "シャロ");
    assert_eq!(result.inner[24].image, "内田真礼");
    assert_eq!(result.inner[28].image, "Append、、");
    assert_eq!(result.inner[29].image, "、");
}

#[test]
fn lexer_input_escape() {
    let result = Tokens::parse("Petit\\、Rabbit's（ココア（佐倉綾音）、チノ（水瀬いのり）、リゼ（種田梨沙）、千夜（佐藤聡美）、シャロ（内田真礼））");
    assert_eq!(result.inner.len(), 27);
    assert_eq!(result.inner[0].image, "Petit、Rabbit's");
    assert_eq!(result.inner[2].image, "ココア");
    assert_eq!(result.inner[4].image, "佐倉綾音");
    assert_eq!(result.inner[7].image, "チノ");
    assert_eq!(result.inner[9].image, "水瀬いのり");
    assert_eq!(result.inner[12].image, "リゼ");
    assert_eq!(result.inner[14].image, "種田梨沙");
    assert_eq!(result.inner[17].image, "千夜");
    assert_eq!(result.inner[19].image, "佐藤聡美");
    assert_eq!(result.inner[22].image, "シャロ");
    assert_eq!(result.inner[24].image, "内田真礼");
}

#[test]
fn lexer_input_escape2() {
    let result = Tokens::parse("Petit \\\\Rabbit's（ココア（佐倉綾音）、チノ（水瀬いのり）、リゼ（種田梨沙）、千夜（佐藤聡美）、シャロ（内田真礼））");
    assert_eq!(result.inner.len(), 27);
    assert_eq!(result.inner[0].image, "Petit \\Rabbit's");
    assert_eq!(result.inner[2].image, "ココア");
    assert_eq!(result.inner[4].image, "佐倉綾音");
    assert_eq!(result.inner[7].image, "チノ");
    assert_eq!(result.inner[9].image, "水瀬いのり");
    assert_eq!(result.inner[12].image, "リゼ");
    assert_eq!(result.inner[14].image, "種田梨沙");
    assert_eq!(result.inner[17].image, "千夜");
    assert_eq!(result.inner[19].image, "佐藤聡美");
    assert_eq!(result.inner[22].image, "シャロ");
    assert_eq!(result.inner[24].image, "内田真礼");
}

#[test]
fn lexer_input_escape3() {
    let result = Tokens::parse("Petit \\Rabbit's（ココア（佐倉綾音）、チノ（水瀬いのり）、リゼ（種田梨沙）、千夜（佐藤聡美）、シャロ（内田真礼））");
    assert_eq!(result.inner.len(), 27);
    assert_eq!(result.inner[0].image, "Petit Rabbit's");
    assert_eq!(result.inner[2].image, "ココア");
    assert_eq!(result.inner[4].image, "佐倉綾音");
    assert_eq!(result.inner[7].image, "チノ");
    assert_eq!(result.inner[9].image, "水瀬いのり");
    assert_eq!(result.inner[12].image, "リゼ");
    assert_eq!(result.inner[14].image, "種田梨沙");
    assert_eq!(result.inner[17].image, "千夜");
    assert_eq!(result.inner[19].image, "佐藤聡美");
    assert_eq!(result.inner[22].image, "シャロ");
    assert_eq!(result.inner[24].image, "内田真礼");
}
