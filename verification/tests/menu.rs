use geostationary::menu::{
    menu_events_for_network, menu_reaction, MainMenuConfig, MenuEvent, MenuNetRequest,
    MenuScreen,
};
use geostationary::network::{ClientEventKind, ClientId, ServerEventKind};

fn config() -> MainMenuConfig {
    MainMenuConfig {
        port: 7777,
        player_name: "ann".to_string(),
    }
}

#[test]
fn play_hosts_and_shows_loading() {
    let r = menu_reaction(MenuEvent::Play, &config());
    assert_eq!(r.screen, Some(MenuScreen::Loading));
    assert_eq!(r.net, Some(MenuNetRequest::Host { port: 7777 }));
    assert!(!r.exit);
}

#[test]
fn join_connects_locally_under_player_name() {
    let r = menu_reaction(MenuEvent::Join, &config());
    assert_eq!(r.screen, Some(MenuScreen::Loading));
    assert_eq!(
        r.net,
        Some(MenuNetRequest::Connect {
            addr: [127, 0, 0, 1],
            port: 7777,
            name: "ann".to_string()
        })
    );
}

#[test]
fn quit_closes_menu_and_exits() {
    let r = menu_reaction(MenuEvent::Quit, &config());
    assert_eq!(r.screen, None);
    assert_eq!(r.net, None);
    assert!(r.exit);
    let t = menu_reaction(MenuEvent::Title, &config());
    assert_eq!(t.screen, Some(MenuScreen::Title));
    let s = menu_reaction(MenuEvent::Settings, &config());
    assert_eq!(s.screen, Some(MenuScreen::Settings));
    assert!(!s.exit);
}

#[test]
fn network_trouble_returns_to_title() {
    let client = vec![
        ClientEventKind::Connected,
        ClientEventKind::Error,
        ClientEventKind::StreamReady { tag: 1 },
        ClientEventKind::Disconnected,
    ];
    let server = vec![
        ServerEventKind::Error,
        ServerEventKind::ClientStreamFrame {
            from: ClientId(1),
            tag: 2,
        },
    ];
    assert_eq!(
        menu_events_for_network(&client, &server),
        vec![MenuEvent::Title; 3]
    );
    assert!(menu_events_for_network(&vec![ClientEventKind::Connected], &vec![]).is_empty());
}
