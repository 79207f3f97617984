use libre99::font::FontId;

#[test]
fn faces_occupy_their_declaration_slots() {
    let all = [FontId::SilkRegular, FontId::MonoRegular, FontId::MonoMedium, FontId::MonoSemiBold, FontId::MonoBold];
    for (i, f) in all.iter().enumerate() {
        assert_eq!(f.index(), i);
    }
    assert_eq!(all.len(), FontId::COUNT);
}
