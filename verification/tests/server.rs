use vu_deploy::server::VuServer;
use vu_deploy::vu::VuDeploy;

const ID: u128 = 0xa1a2a3a4b1b2c1c2d1d2d3d4d5d6d7d8;

#[test]
fn server_id_is_shown_hyphenated_in_lower_case() {
    let server = VuServer::new_from(ID, String::new(), String::new());
    assert_eq!(server.get_id_as_string(), "a1a2a3a4-b1b2-c1c2-d1d2-d3d4d5d6d7d8");
    let server = VuServer::new_from(0xF, String::new(), String::new());
    assert_eq!(server.get_id_as_string(), "00000000-0000-0000-0000-00000000000f");
    let server = VuServer::new_from(u128::MAX, String::new(), String::new());
    assert_eq!(server.get_id_as_string(), "ffffffff-ffff-ffff-ffff-ffffffffffff");
}

#[test]
fn server_prefix_defaults_to_vu() {
    let server = VuServer::new_from(ID, String::new(), "secret".to_string());
    assert_eq!(server.get_prefix(), "vu_");
    assert_eq!(server.get_display_name(), "vu_a1a2a3a4-b1b2-c1c2-d1d2-d3d4d5d6d7d8");
    let server = VuServer::new_from(ID, "br-".to_string(), "secret".to_string());
    assert_eq!(server.get_prefix(), "br-");
    assert_eq!(server.get_display_name(), "br-a1a2a3a4-b1b2-c1c2-d1d2-d3d4d5d6d7d8");
}

#[test]
fn server_startup_text() {
    let server = VuServer::new_from(ID, String::new(), "secret".to_string());
    assert_eq!(
        server.create_new_br_startup(),
        "vars.serverName \"vu_a1a2a3a4-b1b2-c1c2-d1d2-d3d4d5d6d7d8\" \r\nvars.friendlyFire true\r\nadmin.password \"cows\""
    );
}

#[test]
fn server_password_and_config() {
    let server = VuServer::new_from(ID, String::new(), "secret".to_string());
    assert_eq!(server.get_user_password(), "secret");
    assert_eq!(server.get_config(), "");
}

#[test]
fn deployment_starts_with_empty_templates() {
    let deploy = VuDeploy::new();
    assert_eq!(deploy.banlist_template(), "");
    assert_eq!(deploy.startup_template(), "");
}

#[test]
fn deployment_takes_what_was_fetched() {
    let mut deploy = VuDeploy::new();
    assert!(deploy.accept_banlist_template(Some("name guid perm".to_string())));
    assert_eq!(deploy.banlist_template(), "name guid perm");
    assert!(!deploy.accept_banlist_template(None));
    assert_eq!(deploy.banlist_template(), "name guid perm");
    assert!(deploy.accept_startup_template(Some("vars.serverName $SERVERNAME".to_string())));
    assert_eq!(deploy.startup_template(), "vars.serverName $SERVERNAME");
    assert!(!deploy.accept_startup_template(None));
    assert_eq!(deploy.startup_template(), "vars.serverName $SERVERNAME");
    assert_eq!(deploy.banlist_template(), "name guid perm");
}

#[test]
fn nothing_is_loaded_from_an_empty_source() {
    assert!(!VuDeploy::is_source(&String::new()));
    assert!(VuDeploy::is_source(&"sample/Admin/BanList.txt".to_string()));
}
