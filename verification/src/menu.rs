//! The main menu: which screen each menu event shows, which network
//! command it issues, and when network trouble sends the player back to the
//! title screen.
use vstd::prelude::*;

use crate::network::{ClientEventKind, ServerEventKind};

verus! {

/// Settings the main menu needs from the application.
#[derive(Debug, Clone)]
pub struct MainMenuConfig {
    pub port: u16,
    pub player_name: String,
}

/// A main-menu event.
#[derive(Debug, Clone, Copy, PartialEq, Eq, Structural)]
pub enum MenuEvent {
    Title,
    Settings,
    Play,
    Join,
    Quit,
}

/// A screen of the main menu.
#[derive(Debug, Clone, Copy, PartialEq, Eq, Structural)]
pub enum MenuScreen {
    Title,
    Settings,
    Loading,
}

/// A network command the menu issues.
#[derive(Debug, Clone, PartialEq, Eq)]
pub enum MenuNetRequest {
    /// Host a game on `port`.
    Host { port: u16 },
    /// Connect to `addr`:`port` as `name`.
    Connect { addr: [u8; 4], port: u16, name: String },
}

/// What the menu does for one event.
#[derive(Debug, Clone, PartialEq, Eq)]
pub struct MenuReaction {
    /// The screen that replaces the menu's contents, or `None` to close the
    /// menu.
    pub screen: Option<MenuScreen>,
    /// The network command to issue, if any.
    pub net: Option<MenuNetRequest>,
    /// Whether to quit the application.
    pub exit: bool,
}

/// The reaction to `ev`: playing hosts on the configured port and joining
/// connects to the local machine under the player's name, both showing the
/// loading screen; quitting closes the menu and exits.
pub fn menu_reaction(ev: MenuEvent, config: &MainMenuConfig) -> (r: MenuReaction)
    ensures
        match ev {
            MenuEvent::Title => r.screen == Some(MenuScreen::Title) && r.net is None && !r.exit,
            MenuEvent::Settings => r.screen == Some(MenuScreen::Settings) && r.net is None
                && !r.exit,
            MenuEvent::Play => r.screen == Some(MenuScreen::Loading) && r.net == Some(
                MenuNetRequest::Host { port: config.port },
            ) && !r.exit,
            MenuEvent::Join => r.screen == Some(MenuScreen::Loading) && (r.net matches Some(
                MenuNetRequest::Connect { addr, port, name },
            ) && addr@ == seq![127u8, 0u8, 0u8, 1u8] && port == config.port && name@
                == config.player_name@) && !r.exit,
            MenuEvent::Quit => r.screen is None && r.net is None && r.exit,
        },
{
    match ev {
        MenuEvent::Title => MenuReaction { screen: Some(MenuScreen::Title), net: None, exit: false },
        MenuEvent::Settings => MenuReaction {
            screen: Some(MenuScreen::Settings),
            net: None,
            exit: false,
        },
        MenuEvent::Play => MenuReaction {
            screen: Some(MenuScreen::Loading),
            net: Some(MenuNetRequest::Host { port: config.port }),
            exit: false,
        },
        MenuEvent::Join => {
            let addr: [u8; 4] = [127u8, 0u8, 0u8, 1u8];
            assert(addr@ =~= seq![127u8, 0u8, 0u8, 1u8]);
            MenuReaction {
                screen: Some(MenuScreen::Loading),
                net: Some(
                    MenuNetRequest::Connect {
                        addr,
                        port: config.port,
                        name: config.player_name.clone(),
                    },
                ),
                exit: false,
            }
        },
        MenuEvent::Quit => MenuReaction { screen: None, net: None, exit: true },
    }
}

/// Whether a client event sends the menu back to the title: an error or a
/// disconnection.
pub open spec fn client_event_resets(k: ClientEventKind) -> bool {
    k == ClientEventKind::Error || k == ClientEventKind::Disconnected
}

/// Whether a server event sends the menu back to the title: an error.
pub open spec fn server_event_resets(k: ServerEventKind) -> bool {
    k == ServerEventKind::Error
}

/// How many of `ks` send the menu back to the title.
pub open spec fn client_resets(ks: Seq<ClientEventKind>) -> nat
    decreases ks.len(),
{
    if ks.len() == 0 {
        0
    } else {
        client_resets(ks.drop_last()) + if client_event_resets(ks.last()) {
            1nat
        } else {
            0nat
        }
    }
}

/// How many of `ks` send the menu back to the title.
pub open spec fn server_resets(ks: Seq<ServerEventKind>) -> nat
    decreases ks.len(),
{
    if ks.len() == 0 {
        0
    } else {
        server_resets(ks.drop_last()) + if server_event_resets(ks.last()) {
            1nat
        } else {
            0nat
        }
    }
}

/// The menu events that network trouble raises while the menu is up: one
/// `Title` for every client error or disconnection and every server error.
pub fn menu_events_for_network(client: &Vec<ClientEventKind>, server: &Vec<ServerEventKind>) -> (r: Vec<
    MenuEvent,
>)
    ensures
        r@ == Seq::new(client_resets(client@) + server_resets(server@), |i: int| MenuEvent::Title),
{
    let mut out: Vec<MenuEvent> = Vec::new();
    let mut i: usize = 0;
    while i < client.len()
        invariant
            i <= client@.len(),
            out@ == Seq::new(client_resets(client@.take(i as int)), |j: int| MenuEvent::Title),
        decreases client@.len() - i,
    {
        proof {
            let t = client@.take(i as int + 1);
            assert(t.drop_last() =~= client@.take(i as int));
            assert(t.last() == client@[i as int]);
        }
        let k = client[i];
        if k == ClientEventKind::Error || k == ClientEventKind::Disconnected {
            out.push(MenuEvent::Title);
        }
        assert(out@ =~= Seq::new(client_resets(client@.take(i as int + 1)), |j: int| MenuEvent::Title));
        i = i + 1;
    }
    assert(client@.take(client@.len() as int) =~= client@);
    let ghost from_client = client_resets(client@);
    let mut j: usize = 0;
    while j < server.len()
        invariant
            j <= server@.len(),
            from_client == client_resets(client@),
            out@ == Seq::new(from_client + server_resets(server@.take(j as int)), |n: int| MenuEvent::Title),
        decreases server@.len() - j,
    {
        proof {
            let t = server@.take(j as int + 1);
            assert(t.drop_last() =~= server@.take(j as int));
            assert(t.last() == server@[j as int]);
        }
        let k = server[j];
        if k == ServerEventKind::Error {
            out.push(MenuEvent::Title);
        }
        assert(out@ =~= Seq::new(from_client + server_resets(server@.take(j as int + 1)), |n: int| MenuEvent::Title));
        j = j + 1;
    }
    assert(server@.take(server@.len() as int) =~= server@);
    out
}

} // verus!
