use libre99::help::HelpTab;

#[test]
fn tabs_cycle_with_wraparound() {
    assert_eq!(HelpTab::Start.cycle(1), HelpTab::Keyboard);
    assert_eq!(HelpTab::Settings.cycle(1), HelpTab::Start);
    assert_eq!(HelpTab::Start.cycle(-1), HelpTab::Settings);
    for t in HelpTab::ALL {
        assert_eq!(t.cycle(1).cycle(-1), t);
        assert_eq!(t.cycle(4), t);
        assert_eq!(HelpTab::ALL[t.index()], t);
    }
}

#[test]
fn tabs_have_labels_in_screen_order() {
    let labels: Vec<&str> = HelpTab::ALL.iter().map(|t| t.label()).collect();
    assert_eq!(labels, ["START", "KEYBOARD", "HOTKEYS", "SETTINGS"]);
}
