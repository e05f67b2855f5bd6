use geostationary::items::EntityId;
use geostationary::network::{ClientId, NetId, Server};
use geostationary::souls::{Souls, CREATURE_KIND};

#[test]
fn bind_routes_input_until_unbound() {
    let mut server = Server::new();
    let mut souls = Souls::new();
    let client = ClientId(3);

    let plan = Souls::plan_bind(&mut server, client);
    assert_eq!(plan.net_id, NetId(1));
    assert_eq!(plan.kind, CREATURE_KIND);
    assert_eq!(plan.owner, client);

    assert_eq!(souls.route_input(client), None);
    souls.bind("ann".to_string(), client, EntityId(40));
    assert_eq!(souls.route_input(client), Some(EntityId(40)));
    assert_eq!(souls.route_input(ClientId(4)), None);

    assert_eq!(souls.unbind(client), Some(Some(EntityId(40))));
    assert_eq!(souls.route_input(client), None);
    assert_eq!(souls.unbind(client), None);
}

#[test]
fn each_bind_takes_a_fresh_net_id() {
    let mut server = Server::new();
    let a = Souls::plan_bind(&mut server, ClientId(1));
    let b = Souls::plan_bind(&mut server, ClientId(2));
    assert_eq!(a.net_id, NetId(1));
    assert_eq!(b.net_id, NetId(2));
}

#[test]
fn first_soul_of_a_client_routes() {
    let mut souls = Souls::new();
    souls.bind("a".to_string(), ClientId(1), EntityId(10));
    souls.bind("b".to_string(), ClientId(2), EntityId(20));
    souls.bind("a2".to_string(), ClientId(1), EntityId(11));
    assert_eq!(souls.route_input(ClientId(1)), Some(EntityId(10)));
    assert_eq!(souls.unbind(ClientId(1)), Some(Some(EntityId(10))));
    assert_eq!(souls.route_input(ClientId(1)), Some(EntityId(11)));
    assert_eq!(souls.route_input(ClientId(2)), Some(EntityId(20)));
}
