use tello::control::classify_reply;
use tello::control::Controller;
use tello::control::JobRet;
use tello::control::TelloCommand;
use tello::error::TelloError;

#[test]
fn command_keywords() {
    assert_eq!(TelloCommand::Command.to_text(), "command".to_string());
    assert_eq!(TelloCommand::Takeoff.to_text(), "takeoff".to_string());
    assert_eq!(TelloCommand::Land.to_text(), "land".to_string());
}

#[test]
fn correlation_ids_start_at_one_and_increment() {
    let mut c = Controller::new();
    assert_eq!(c.begin_job(TelloCommand::Command).id, 1);
    let _ = c.conclude_job(TelloCommand::Command, Some(Ok(0)));
    assert_eq!(c.begin_job(TelloCommand::Takeoff).id, 2);
    let _ = c.conclude_job(TelloCommand::Takeoff, None);
    // the counter advances on timeout as well
    assert_eq!(c.begin_job(TelloCommand::Land).id, 3);
}

#[test]
fn correlation_ids_wrap_at_sixteen_bits() {
    let mut c = Controller::new();
    for _ in 0..65534 {
        c.advance_job_no();
    }
    assert_eq!(c.begin_job(TelloCommand::Command).id, 65535);
    c.advance_job_no();
    // 16-bit wraparound: after 65535 the counter emits 0, not 1
    assert_eq!(c.begin_job(TelloCommand::Command).id, 0);
    c.advance_job_no();
    assert_eq!(c.begin_job(TelloCommand::Command).id, 1);
}

#[test]
fn classify_ok_is_zero() {
    assert_eq!(classify_reply("ok", TelloCommand::Command), Ok(0));
}

#[test]
fn classify_numeric_replies() {
    assert_eq!(classify_reply("123", TelloCommand::Command), Ok(123));
    assert_eq!(classify_reply("0", TelloCommand::Command), Ok(0));
    assert_eq!(classify_reply("+7", TelloCommand::Command), Ok(7));
    assert_eq!(
        classify_reply("4294967295", TelloCommand::Command),
        Ok(u32::MAX)
    );
}

#[test]
fn classify_error_reply() {
    assert_eq!(
        classify_reply("error", TelloCommand::Takeoff),
        Err(TelloError::TelloCmdFail("takeoff".to_string()))
    );
}

#[test]
fn classify_illegal_replies() {
    assert_eq!(
        classify_reply("huh?", TelloCommand::Command),
        Err(TelloError::TelloResponsIllegal("huh?".to_string()))
    );
    assert_eq!(
        classify_reply("", TelloCommand::Command),
        Err(TelloError::TelloResponsIllegal("".to_string()))
    );
    // unsigned parsing rejects a minus sign
    assert_eq!(
        classify_reply("-5", TelloCommand::Command),
        Err(TelloError::TelloResponsIllegal("-5".to_string()))
    );
    // one past the 32-bit maximum no longer parses
    assert_eq!(
        classify_reply("4294967296", TelloCommand::Command),
        Err(TelloError::TelloResponsIllegal("4294967296".to_string()))
    );
    assert_eq!(
        classify_reply("12a", TelloCommand::Command),
        Err(TelloError::TelloResponsIllegal("12a".to_string()))
    );
}

#[test]
fn ring_finds_recent_result() {
    let mut c = Controller::new();
    c.add_job_rets(JobRet { id: 5, ret: Ok(1) });
    assert_eq!(c.find_job_rets(5), Some(JobRet { id: 5, ret: Ok(1) }));
    assert_eq!(c.find_job_rets(6), None);
}

#[test]
fn ring_returns_most_recent_for_duplicate_id() {
    let mut c = Controller::new();
    c.add_job_rets(JobRet { id: 5, ret: Ok(1) });
    c.add_job_rets(JobRet { id: 5, ret: Ok(2) });
    assert_eq!(c.find_job_rets(5), Some(JobRet { id: 5, ret: Ok(2) }));
}

#[test]
fn ring_evicts_after_sixteen_insertions() {
    let mut c = Controller::new();
    c.add_job_rets(JobRet { id: 1, ret: Ok(7) });
    assert!(c.find_job_rets(1).is_some());
    for k in 0..16 {
        c.add_job_rets(JobRet {
            id: 100 + k,
            ret: Ok(k as u32),
        });
    }
    // evicted by sixteen later insertions: gone
    assert_eq!(c.find_job_rets(1), None);
    // the later results are all still there
    assert_eq!(
        c.find_job_rets(115),
        Some(JobRet { id: 115, ret: Ok(15) })
    );
    assert_eq!(c.find_job_rets(100), Some(JobRet { id: 100, ret: Ok(0) }));
}

#[test]
fn absorb_results_inserts_in_order() {
    let mut c = Controller::new();
    c.absorb_results(vec![
        JobRet { id: 9, ret: Ok(1) },
        JobRet { id: 9, ret: Ok(2) },
    ]);
    assert_eq!(c.find_job_rets(9), Some(JobRet { id: 9, ret: Ok(2) }));
}

#[test]
fn poll_budget_is_ten_per_second() {
    let mut c = Controller::new();
    assert_eq!(c.poll_budget(), 300);
    c.set_timeout_sec(1);
    assert_eq!(c.poll_budget(), 10);
}

#[test]
fn silent_call_times_out_after_budget() {
    let mut c = Controller::new();
    c.set_timeout_sec(1);
    let job = c.begin_job(TelloCommand::Takeoff);
    let budget = c.poll_budget();
    assert_eq!(budget, 10);
    let mut found = None;
    for _ in 0..budget {
        c.absorb_results(vec![]);
        if let Some(hit) = c.find_job_rets(job.id) {
            found = Some(hit.ret);
            break;
        }
    }
    assert!(found.is_none());
    let r = c.conclude_job(TelloCommand::Takeoff, found);
    assert_eq!(
        r,
        Err(TelloError::TelloTimeout("CMD[takeoff]".to_string()))
    );
}

#[test]
fn matched_call_returns_reply_value() {
    let mut c = Controller::new();
    let job = c.begin_job(TelloCommand::Command);
    c.absorb_results(vec![JobRet {
        id: job.id,
        ret: Ok(90),
    }]);
    let found = c.find_job_rets(job.id).map(|hit| hit.ret);
    let r = c.conclude_job(TelloCommand::Command, found);
    assert_eq!(r, Ok(90));
    assert_eq!(c.begin_job(TelloCommand::Command).id, 2);
}

#[test]
fn error_messages() {
    assert_eq!(
        TelloError::SocketError("boom".to_string()).message(),
        "SocketError: boom".to_string()
    );
    assert_eq!(
        TelloError::TelloCmdFail("land".to_string()).message(),
        "Tello Error: land".to_string()
    );
    assert_eq!(
        TelloError::TelloResponsIllegal("xyz".to_string()).message(),
        "Illegal Respons from tello.[xyz]".to_string()
    );
    assert_eq!(
        TelloError::TelloTimeout("CMD[land]".to_string()).message(),
        "Timeout: CMD[land]".to_string()
    );
}
