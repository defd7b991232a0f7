use bf_jit::abi::{abort_reason, io_request, IoRequest, ABORT_MEMORY, IO_READ, IO_WRITE};
use bf_jit::page::{PageEvent, PageState, Protection};
use bf_jit::vm::RuntimeError;

#[test]
fn io_request_of_each_direction() {
    assert_eq!(IO_READ, 0);
    assert_eq!(IO_WRITE, 1);
    assert_eq!(io_request(0), IoRequest::Read);
    assert_eq!(io_request(1), IoRequest::Write);
    assert_eq!(io_request(2), IoRequest::Nothing);
    assert_eq!(io_request(255), IoRequest::Nothing);
}

#[test]
fn abort_reason_of_each_code() {
    assert_eq!(ABORT_MEMORY, 0);
    assert_eq!(abort_reason(0), Some(RuntimeError::MemoryOutofRange));
    assert_eq!(abort_reason(1), None);
    assert_eq!(abort_reason(255), None);
}

#[test]
fn page_goes_through_its_life() {
    let page = PageState::new();
    assert_eq!(page, PageState::Writable);
    let page = page.next(PageEvent::Loaded).unwrap();
    assert_eq!(page, PageState::Sealed);
    let page = page.next(PageEvent::PreExec).unwrap();
    assert_eq!(page, PageState::Executable);
    let page = page.next(PageEvent::PostExec).unwrap();
    assert_eq!(page, PageState::Sealed);
    let page = page.next(PageEvent::PreExec).unwrap();
    let page = page.next(PageEvent::PostExec).unwrap();
    let page = page.next(PageEvent::Dropped).unwrap();
    assert_eq!(page, PageState::Released);
}

#[test]
fn page_takes_no_event_out_of_order() {
    assert_eq!(PageState::Writable.next(PageEvent::PreExec), None);
    assert_eq!(PageState::Writable.next(PageEvent::PostExec), None);
    assert_eq!(PageState::Sealed.next(PageEvent::Loaded), None);
    assert_eq!(PageState::Sealed.next(PageEvent::PostExec), None);
    assert_eq!(PageState::Executable.next(PageEvent::Loaded), None);
    assert_eq!(PageState::Executable.next(PageEvent::PreExec), None);
    assert_eq!(PageState::Released.next(PageEvent::Loaded), None);
    assert_eq!(PageState::Released.next(PageEvent::PreExec), None);
    assert_eq!(PageState::Released.next(PageEvent::PostExec), None);
    assert_eq!(PageState::Released.next(PageEvent::Dropped), None);
}

#[test]
fn page_can_be_dropped_at_any_time() {
    assert_eq!(
        PageState::Writable.next(PageEvent::Dropped),
        Some(PageState::Released)
    );
    assert_eq!(
        PageState::Sealed.next(PageEvent::Dropped),
        Some(PageState::Released)
    );
    assert_eq!(
        PageState::Executable.next(PageEvent::Dropped),
        Some(PageState::Released)
    );
}

#[test]
fn page_is_never_writable_and_executable() {
    assert_eq!(
        PageState::Writable.protection(),
        Some(Protection {
            readable: true,
            writable: true,
            executable: false
        })
    );
    assert_eq!(
        PageState::Sealed.protection(),
        Some(Protection {
            readable: true,
            writable: false,
            executable: false
        })
    );
    assert_eq!(
        PageState::Executable.protection(),
        Some(Protection {
            readable: false,
            writable: false,
            executable: true
        })
    );
    assert_eq!(PageState::Released.protection(), None);
}
