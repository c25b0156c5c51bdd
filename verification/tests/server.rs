use clm_vdisplay::config::AppConfig;
use clm_vdisplay::server::session::{DisplaySession, SessionConfig, SessionEvent};
use clm_vdisplay::server::supervisor::{
    command_payload, framed, DisplaySupervisor, SupervisorCommand, SupervisorEffect,
    SupervisorResponse, SupervisorStep,
};
use clm_vdisplay::server::DisplayServer;

fn create(display_num: u32, rfb_port: Option<u16>, mode: Option<String>) -> SupervisorCommand {
    SupervisorCommand::Create {
        display_num,
        width: 640,
        height: 480,
        rfb_port,
        ws_port: Some(9),
        token: Some("t".to_string()),
        mode,
    }
}

fn started(supervisor: &mut DisplaySupervisor, cmd: SupervisorCommand) -> SupervisorResponse {
    match supervisor.handle_command(cmd) {
        SupervisorStep::Start(config) => supervisor.created(config),
        _ => panic!("unexpected step"),
    }
}

fn reply(
    supervisor: &mut DisplaySupervisor,
    cmd: SupervisorCommand,
) -> (SupervisorEffect, SupervisorResponse) {
    match supervisor.handle_command(cmd) {
        SupervisorStep::Reply(effect, response) => (effect, response),
        _ => panic!("unexpected step"),
    }
}

fn message(response: &SupervisorResponse) -> &str {
    response.message.as_deref().expect("a message")
}

#[test]
fn displays_come_and_go() {
    let mut supervisor = DisplayServer::new(5900, "/tmp/s".to_string()).supervisor;
    let response = started(&mut supervisor, create(107, None, None));
    assert!(response.success && response.displays.is_none());
    assert_eq!(message(&response), "Display :107 created");
    let info = response.display.expect("a display");
    assert_eq!((info.display_num, info.rfb_port, info.ws_port), (107, 5907, Some(9)));
    assert_eq!(info.mode, "hybrid");
    let response = started(&mut supervisor, create(3, Some(1234), Some("x11".to_string())));
    let info = response.display.expect("a display");
    assert_eq!((info.rfb_port, info.mode.as_str()), (1234, "x11"));

    let (effect, response) = reply(&mut supervisor, SupervisorCommand::List);
    assert!(matches!(effect, SupervisorEffect::Nothing));
    let mut numbers: Vec<u32> =
        response.displays.expect("a list").iter().map(|d| d.display_num).collect();
    numbers.sort();
    assert_eq!(numbers, vec![3, 107]);

    let (_, response) = reply(&mut supervisor, SupervisorCommand::Get { display_num: 3 });
    assert!(response.success && response.message.is_none());
    assert_eq!(response.display.expect("a display").width, 640);

    let (effect, response) = reply(&mut supervisor, SupervisorCommand::Stop { display_num: 3 });
    assert!(matches!(effect, SupervisorEffect::Stop(3)));
    assert_eq!(message(&response), "Display :3 stopped");
    let (effect, response) = reply(&mut supervisor, SupervisorCommand::Stop { display_num: 3 });
    assert!(matches!(effect, SupervisorEffect::Nothing) && !response.success);
    assert_eq!(message(&response), "Display :3 not found");
    let (_, response) = reply(&mut supervisor, SupervisorCommand::Get { display_num: 3 });
    assert!(!response.success);
    assert_eq!(message(&response), "Display not found");
    assert_eq!(supervisor.list_displays().len(), 1);

    supervisor.handle_event(&SessionEvent::ClientConnected {
        session_id: 1,
        display_num: 107,
        peer_addr: "a".to_string(),
    });
    assert_eq!(supervisor.list_displays().len(), 1);
    supervisor.handle_event(&SessionEvent::Terminated { display_num: 107 });
    assert!(supervisor.list_displays().is_empty());
}

#[test]
fn commands_to_a_display() {
    let mut supervisor = DisplaySupervisor::new(5900, "/tmp/s".to_string());
    for found in [false, true] {
        if found {
            started(&mut supervisor, create(4, None, None));
        }
        let text = "x".to_string();
        let (effect, response) = reply(
            &mut supervisor,
            SupervisorCommand::InjectText { display_num: 4, text: text.clone() },
        );
        assert_eq!(response.success, found);
        if found {
            assert!(matches!(effect, SupervisorEffect::InjectText(4, _)));
            assert_eq!(message(&response), "Text injected");
        } else {
            assert!(matches!(effect, SupervisorEffect::Nothing));
            assert_eq!(message(&response), "Display not found");
        }
        let (effect, response) =
            reply(&mut supervisor, SupervisorCommand::SetClipboard { display_num: 4, text });
        assert_eq!(response.success, found);
        if found {
            assert!(matches!(effect, SupervisorEffect::SetClipboard(4, _)));
            assert_eq!(message(&response), "Clipboard updated");
        }
        let (effect, response) =
            reply(&mut supervisor, SupervisorCommand::SetFps { display_num: 4, fps: 99 });
        assert_eq!(response.success, found);
        if found {
            assert!(matches!(effect, SupervisorEffect::SetFps(4, 30)));
        }
    }
}

#[test]
fn answers_to_what_went_wrong() {
    let response = DisplaySupervisor::start_failed("no port");
    assert!(!response.success && response.display.is_none());
    assert_eq!(message(&response), "Failed to start display: no port");
    let response = DisplaySupervisor::invalid_payload("bad");
    assert_eq!(message(&response), "Invalid command payload: bad");
    assert_eq!(command_payload("  {\"a\":1}\n"), Some("{\"a\":1}".to_string()));
    assert_eq!(command_payload(" \t\r\n"), None);
    assert_eq!(framed("{}"), "{}\n");
}

#[test]
fn sessions() {
    let session = DisplaySession::new(SessionConfig {
        display_num: 12,
        width: 320,
        height: 200,
        rfb_port: 5912,
        ws_port: None,
        auth_token: None,
        mode: "x11".to_string(),
    });
    let plan = session.plan();
    assert_eq!(plan.desktop_name, "CloakBrowser Display :12");
    assert_eq!(plan.tcp_addr, "0.0.0.0:5912");
    assert_eq!(plan.ws_addr, None);
    assert!(matches!(session.terminated(), SessionEvent::Terminated { display_num: 12 }));
    assert!(session.display.x11.is_some() && session.display.wayland.is_none());
    let app = AppConfig::from_start_args_full(
        ":5",
        "64x48",
        5901,
        Some(7000),
        Some("tok".to_string()),
        "hybrid",
        None,
        false,
        true,
        "/x".to_string(),
        Some("-a  -b".to_string()),
        15,
    );
    let session = DisplaySession::from_app_config(&app);
    assert_eq!(session.config.auth_token.as_deref(), Some("tok"));
    assert_eq!(session.plan().ws_addr.as_deref(), Some("0.0.0.0:7000"));
    assert!(!session.launch.manage_x11);
    assert_eq!(session.launch.xvfb_path.as_deref(), Some("/x"));
    assert_eq!(session.launch.xvfb_args, Some(vec!["-a".to_string(), "-b".to_string()]));
    assert_eq!((session.capture_fps, session.display.width), (15, 64));
}
