use clicker::click_counter::add;
use clicker::game_plugin::new;
use clicker::model::{ActiveLobby, AutoClick, ClickCounter, GlobalCounter};

#[test]
fn add_test_usage() {
    let mut counter = ClickCounter::default();
    add(&mut counter, 5);
    assert_eq!(*counter, 5);
}

#[test]
fn new_test_usage() {
    let _plugin = new();
}

#[test]
fn active_lobby_test_usage() {
    let lobby = ActiveLobby("alpha".to_string());
    assert_eq!(&**lobby, "alpha");
    assert_eq!(ActiveLobby::default(), ActiveLobby(String::new()));
}

#[test]
fn auto_click_test_usage() {
    assert!(!*AutoClick::default());
    assert!(*AutoClick(true));
}

#[test]
fn add_saturates_at_the_bounds() {
    let mut counter = ClickCounter(i32::MAX - 1);
    add(&mut counter, 5);
    assert_eq!(*counter, i32::MAX);
    let mut low = ClickCounter(i32::MIN + 1);
    add(&mut low, -5);
    assert_eq!(*low, i32::MIN);
}

#[test]
fn counter_max_never_lowers() {
    let mut counter = ClickCounter(7);
    counter.max(3);
    assert_eq!(*counter, 7);
    counter.max(9);
    assert_eq!(*counter, 9);
}

#[test]
fn global_counter_adds() {
    let mut global = GlobalCounter::default();
    global.add(2);
    global.add(-5);
    assert_eq!(*global, -3);
}
