use proxmox_backup::task::{
    parse_worker_status_line, reconcile_task_lists, render_task_line, render_task_list,
    sort_task_list, split_index_archive, TaskError, TaskListInfo, TaskState, UPID,
};

fn sample_upid(task_id: u64, starttime: i64) -> UPID {
    UPID {
        node: "node1".to_string(),
        pid: 0x1234,
        pstart: 0xabcd,
        task_id,
        starttime,
        worker_type: "backup".to_string(),
        worker_id: Some("store_host_foo".to_string()),
        userid: "root@pam".to_string(),
    }
}

fn info(task_id: u64, starttime: i64, state: Option<TaskState>) -> TaskListInfo {
    let upid = sample_upid(task_id, starttime);
    TaskListInfo { upid_str: upid.to_text(), upid, state }
}

#[test]
fn task_state_from_message() {
    assert_eq!(
        TaskState::from_endtime_and_message(5, "OK"),
        Ok(TaskState::OK { endtime: 5 })
    );
    assert_eq!(
        TaskState::from_endtime_and_message(5, "unknown"),
        Ok(TaskState::Unknown { endtime: 5 })
    );
    assert_eq!(
        TaskState::from_endtime_and_message(7, "WARNINGS: 3"),
        Ok(TaskState::Warning { count: 3, endtime: 7 })
    );
    assert_eq!(
        TaskState::from_endtime_and_message(7, "ERROR: disk full"),
        Ok(TaskState::Error { message: "disk full".to_string(), endtime: 7 })
    );
    assert_eq!(
        TaskState::from_endtime_and_message(7, "something odd"),
        Ok(TaskState::Error { message: "something odd".to_string(), endtime: 7 })
    );
    assert_eq!(TaskState::from_endtime_and_message(7, ""), Err(TaskError::BadStatus));
    assert_eq!(TaskState::from_endtime_and_message(7, "WARNINGS: x"), Err(TaskError::BadStatus));
}

#[test]
fn task_state_texts() {
    assert_eq!(TaskState::OK { endtime: 1 }.result_text(), "TASK OK");
    assert_eq!(TaskState::Warning { count: 12, endtime: 1 }.result_text(), "TASK WARNINGS: 12");
    assert_eq!(
        TaskState::Error { message: "abort requested - aborting task".to_string(), endtime: 1 }
            .result_text(),
        "TASK ERROR: abort requested - aborting task"
    );
    assert_eq!(TaskState::Unknown { endtime: 1 }.status_text(), "unknown");
    assert_eq!(TaskState::Warning { count: 2, endtime: 9 }.endtime(), 9);
}

#[test]
fn upid_text_round_trip() {
    let u = sample_upid(0x2a, 0x5f000000);
    let text = u.to_text();
    assert_eq!(text, "node1:00001234:0000ABCD:0000002A:5F000000:backup:store_host_foo:root@pam:");
    assert_eq!(UPID::parse(&text), Ok(u));
    let mut v = sample_upid(1, 2);
    v.worker_id = None;
    assert_eq!(UPID::parse(&v.to_text()), Ok(v));
    assert_eq!(UPID::parse("node1:zz:1:1:1:t:i:u:"), Err(TaskError::BadUpid));
    assert_eq!(UPID::parse("node1:1:1:1:1:t:i:u"), Err(TaskError::BadUpid));
}

#[test]
fn status_line_parse_and_render() {
    let i = info(3, 100, Some(TaskState::Warning { count: 2, endtime: 0x200 }));
    let line = render_task_line(&i);
    assert_eq!(line, format!("{} 00000200 WARNINGS: 2\n", i.upid_str));
    let (s, u, st) = parse_worker_status_line(line.trim_end()).unwrap();
    assert_eq!(s, i.upid_str);
    assert_eq!(u, i.upid);
    assert_eq!(st, i.state);

    let running = info(4, 100, None);
    let line = render_task_line(&running);
    assert_eq!(line, format!("{}\n", running.upid_str));
    let (_, _, st) = parse_worker_status_line(line.trim_end()).unwrap();
    assert_eq!(st, None);
    assert!(parse_worker_status_line("a b").is_err());
}

#[test]
fn sort_orders_by_endtime_then_unfinished() {
    let list = vec![
        info(1, 50, None),
        info(2, 10, Some(TaskState::OK { endtime: 30 })),
        info(3, 10, Some(TaskState::OK { endtime: 20 })),
        info(4, 40, None),
    ];
    let sorted = sort_task_list(list);
    let ids: Vec<u64> = sorted.iter().map(|i| i.upid.task_id).collect();
    assert_eq!(ids, vec![3, 2, 4, 1]);
    assert_eq!(render_task_list(&sorted).lines().count(), 4);
}

#[test]
fn reconcile_moves_stopped_tasks() {
    let finished = vec![info(1, 10, Some(TaskState::OK { endtime: 15 }))];
    let active = vec![
        info(2, 20, None),
        info(3, 30, None),
        info(4, 40, Some(TaskState::OK { endtime: 45 })),
    ];
    let alive = [true, false, true];
    let status = vec![None, None, None];
    let (act, fin) = reconcile_task_lists(finished, active, &alive, status, 99, Some(info(5, 50, None)));
    let act_ids: Vec<u64> = act.iter().map(|i| i.upid.task_id).collect();
    assert_eq!(act_ids, vec![2, 5]);
    let fin_ids: Vec<u64> = fin.iter().map(|i| i.upid.task_id).collect();
    assert_eq!(fin_ids, vec![1, 4, 3]);
    assert_eq!(fin[2].state, Some(TaskState::Unknown { endtime: 99 }));
}

#[test]
fn reconcile_twice_is_reconcile_once() {
    let finished = vec![info(1, 10, Some(TaskState::OK { endtime: 15 }))];
    let active = vec![info(2, 20, None), info(3, 30, None)];
    let (a1, f1) = reconcile_task_lists(
        finished,
        active,
        &[true, false],
        vec![None, Some(TaskState::OK { endtime: 35 })],
        99,
        None,
    );
    let (arch, idx) = split_index_archive(f1);
    assert!(arch.is_empty());
    let alive2 = vec![true; a1.len()];
    let status2 = vec![None; a1.len()];
    let (a2, f2) = reconcile_task_lists(idx.clone(), a1.clone(), &alive2, status2, 123, None);
    assert_eq!(a2, a1);
    assert_eq!(f2, idx);
    let (arch2, idx2) = split_index_archive(f2);
    assert!(arch2.is_empty());
    assert_eq!(idx2, idx);
}

#[test]
fn split_keeps_newest_thousand() {
    let list: Vec<TaskListInfo> =
        (0..1005).map(|i| info(i, 0, Some(TaskState::OK { endtime: i as i64 }))).collect();
    let (arch, idx) = split_index_archive(list);
    assert_eq!(arch.len(), 5);
    assert_eq!(idx.len(), 1000);
    assert_eq!(idx[0].upid.task_id, 5);
}

#[test]
fn abort_mid_upload_ends_in_error_state() {
    let mut task = proxmox_backup::task::WorkerTask::new(sample_upid(9, 100));
    assert!(task.fail_on_abort().is_ok());
    task.warn();
    task.request_abort();
    assert!(task.abort_requested());
    let result = task.fail_on_abort();
    assert_eq!(result, Err("abort requested — aborting task".to_string()));
    let state = task.create_state(&result, 200);
    assert_eq!(
        state,
        TaskState::Error { message: "abort requested — aborting task".to_string(), endtime: 200 }
    );
    assert_eq!(state.result_text(), "TASK ERROR: abort requested — aborting task");
    let fresh = proxmox_backup::task::WorkerTask::new(sample_upid(10, 100));
    assert_eq!(fresh.create_state(&Ok(()), 5), TaskState::OK { endtime: 5 });
    assert_eq!(task.create_state(&Ok(()), 5), TaskState::Warning { count: 1, endtime: 5 });
    assert_eq!(task.upid().task_id, 9);
}
