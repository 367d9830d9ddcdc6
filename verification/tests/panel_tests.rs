use moranote::shell::{FloatingPanels, Panel};

fn state(p: &FloatingPanels) -> (bool, bool, bool, bool) {
    (p.settings, p.export, p.quick_open, p.recent_open)
}

#[test]
fn toggling_a_panel_closes_the_others() {
    let mut panels = FloatingPanels::new();
    assert!(!panels.any_open());
    panels.toggle(Panel::Settings);
    assert_eq!(state(&panels), (true, false, false, false));
    panels.toggle(Panel::Export);
    assert_eq!(state(&panels), (false, true, false, false));
    assert!(panels.any_open());
    panels.toggle(Panel::Export);
    assert_eq!(state(&panels), (false, false, false, false));
}

#[test]
fn quick_open_needs_files() {
    let mut panels = FloatingPanels::new();
    panels.toggle(Panel::RecentOpen);
    assert!(!panels.toggle_quick_open(false));
    assert_eq!(state(&panels), (false, false, false, true));
    assert!(panels.toggle_quick_open(true));
    assert_eq!(state(&panels), (false, false, true, false));
}

#[test]
fn closing_all_panels() {
    let mut panels = FloatingPanels { settings: true, export: true, quick_open: false, recent_open: true };
    panels.close_all();
    assert_eq!(state(&panels), (false, false, false, false));
    assert!(!panels.any_open());
}
