use spielab::capture::{
    PortalReply, PortalStage, PortalStep, ScreenCapture, SharedStream, SourceKind, SourceTypes,
};
use spielab::failure::Failure;
use spielab::settings::CaptureMode;

const NONE: SourceTypes = SourceTypes {
    monitor: false,
    window: false,
    virtual_monitor: false,
};

fn stream(kind: Option<SourceKind>) -> SharedStream {
    SharedStream {
        node_id: 12,
        size: Some((1920, 1080)),
        kind,
    }
}

fn reply(available: SourceTypes, streams: Vec<SharedStream>) -> PortalReply {
    PortalReply { available, streams }
}

#[test]
fn only_available_sources_are_requested() {
    let all = SourceTypes {
        monitor: true,
        window: true,
        virtual_monitor: true,
    };
    assert_eq!(
        ScreenCapture::requested(CaptureMode::Mirror, all),
        Ok(SourceTypes {
            virtual_monitor: false,
            ..all
        })
    );
    let window = SourceTypes {
        window: true,
        ..NONE
    };
    assert_eq!(ScreenCapture::requested(CaptureMode::Mirror, window), Ok(window));
    assert_eq!(
        ScreenCapture::requested(CaptureMode::Mirror, NONE),
        Err(Failure::NoSources)
    );
    assert_eq!(
        ScreenCapture::requested(CaptureMode::Extend, window),
        Err(Failure::NoVirtualMonitors)
    );
    assert_eq!(
        ScreenCapture::requested(CaptureMode::Extend, all),
        Ok(SourceTypes {
            virtual_monitor: true,
            ..NONE
        })
    );
    assert!(ScreenCapture::supports_virtual(all));
    assert!(!ScreenCapture::supports_virtual(window));
}

#[test]
fn exactly_one_stream_is_accepted() {
    let screen = stream(Some(SourceKind::Monitor));
    assert_eq!(
        ScreenCapture::accept(CaptureMode::Mirror, &vec![]),
        Err(Failure::NotOneSource)
    );
    assert_eq!(
        ScreenCapture::accept(CaptureMode::Mirror, &vec![screen, screen]),
        Err(Failure::NotOneSource)
    );
    let accepted = ScreenCapture::accept(CaptureMode::Mirror, &vec![screen]).unwrap();
    assert_eq!((accepted.node_id, accepted.size), (12, Some((1920, 1080))));
    assert_eq!(
        ScreenCapture::accept(CaptureMode::Extend, &vec![screen]),
        Err(Failure::NotVirtual)
    );
    assert_eq!(
        ScreenCapture::accept(CaptureMode::Extend, &vec![stream(None)]),
        Err(Failure::NotVirtual)
    );
    let extended = stream(Some(SourceKind::Virtual));
    assert!(ScreenCapture::accept(CaptureMode::Extend, &vec![extended]).is_ok());
}

#[test]
fn selection_runs_through_the_portal() {
    let monitor = SourceTypes {
        monitor: true,
        ..NONE
    };
    let mut selection = ScreenCapture::select();
    assert_eq!(selection.next(&reply(monitor, vec![])), PortalStep::CreateSession);
    assert_eq!(
        selection.next(&reply(NONE, vec![])),
        PortalStep::SelectSources(monitor)
    );
    assert_eq!(selection.next(&reply(NONE, vec![])), PortalStep::Start);
    assert_eq!(
        selection.next(&reply(NONE, vec![stream(None)])),
        PortalStep::OpenRemote
    );
    let screen = ScreenCapture {
        node_id: 12,
        size: Some((1920, 1080)),
        mode: CaptureMode::Mirror,
    };
    assert_eq!(
        selection.next(&reply(NONE, vec![])),
        PortalStep::Finished(screen)
    );
    assert_eq!(
        selection.next(&reply(NONE, vec![])),
        PortalStep::Stop {
            failure: Failure::SelectionOver,
            close: false
        }
    );
}

#[test]
fn created_sessions_are_closed_on_failure() {
    let monitor = SourceTypes {
        monitor: true,
        ..NONE
    };
    let mut selection = ScreenCapture::select_mode(CaptureMode::Extend);
    assert_eq!(
        selection.next(&reply(monitor, vec![])),
        PortalStep::Stop {
            failure: Failure::NoVirtualMonitors,
            close: false
        }
    );
    let mut selection = ScreenCapture::select();
    selection.next(&reply(monitor, vec![]));
    assert!(!selection.clone().abandon());
    selection.next(&reply(NONE, vec![]));
    assert!(selection.clone().abandon());
    selection.next(&reply(NONE, vec![]));
    assert_eq!(
        selection.next(&reply(NONE, vec![])),
        PortalStep::Stop {
            failure: Failure::NotOneSource,
            close: true
        }
    );
    assert_eq!(selection.stage, PortalStage::Failed);
    assert!(!selection.abandon());
}
