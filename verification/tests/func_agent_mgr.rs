use ixgateway::func_agent_mgr::{
    AgentCounters, AssignReqs, AvailableWorker, on_lease_failed, LeaseError, LeaseFailure, ClientReqQueue, ClientReturn, FuncWorkerState, HttpClientState, ProcessSlot, Throttle,
    WaitState,
    WorkerSlots,
};

#[test]
fn throttle_never_exceeds_capacity() {
    let mut t = Throttle::New(5, 2);
    assert!(!t.Refill());
    assert!(t.TryAcquire());
    assert!(t.TryAcquire());
    assert!(!t.TryAcquire());
    assert!(t.Refill());
    assert!(t.Refill());
    assert!(!t.Refill());
}

#[test]
fn queue_drops_timed_out_requests_and_bounds_length() {
    let mut q: ClientReqQueue<&str> = ClientReqQueue::New(2, 100);
    assert_eq!(q.Send("a", 0), (vec![], None));
    assert_eq!(q.Send("b", 50), (vec![], None));
    assert_eq!(q.Send("c", 60), (vec![], Some("c")));
    assert_eq!(q.Count(), 2);
    let (dropped, first) = q.TryRecv(120);
    assert_eq!(dropped, vec![(0, "a")]);
    assert_eq!(first, Some((50, "b")));
    assert_eq!(q.Count(), 0);
    assert_eq!(q.TryRecv(130), (vec![], None));
    q.Send("d", 200);
    assert_eq!(q.CleanTimeout(300), vec![]);
    assert_eq!(q.CleanTimeout(301), vec![(200, "d")]);
}

#[test]
fn worker_slots_follow_requests() {
    let mut w = WorkerSlots::new(2);
    assert_eq!(w.AvailableSlot(), 0);
    w.state = FuncWorkerState::Idle;
    assert_eq!(w.AvailableSlot(), 2);
    w.AssignReq();
    w.OnRequest();
    assert_eq!(w.state, FuncWorkerState::Processing);
    assert_eq!(w.AvailableSlot(), 1);
    assert_eq!(w.OnClientReturned(HttpClientState::Success), ClientReturn::RequestDone);
    assert_eq!(w.state, FuncWorkerState::Idle);
    assert_eq!(w.ongoing, 0);
}

#[test]
fn eleventh_failure_fails_the_worker() {
    let mut w = WorkerSlots::new(1);
    w.state = FuncWorkerState::Processing;
    for _ in 0..10 {
        w.ongoing = 1;
        assert_eq!(w.OnClientReturned(HttpClientState::Fail), ClientReturn::RequestDone);
    }
    w.ongoing = 1;
    assert_eq!(w.OnClientReturned(HttpClientState::Fail), ClientReturn::WorkerFail);
    assert_eq!(w.fail_count, 11);
}

#[test]
fn counters_hand_out_increasing_ids() {
    let mut c = AgentCounters {
        tenant: "t".to_string(),
        namespace: "n".to_string(),
        func_name: "f".to_string(),
        available_slot: 0,
        total_slot: 3,
        starting_slot: 1,
        next_worker_id: 0,
        next_req_id: 7,
    };
    assert_eq!(c.Key(), "t/n/f");
    assert_eq!(c.NextWorkerId(), 1);
    assert_eq!(c.NextWorkerId(), 2);
    assert_eq!(c.NextReqId(), 8);
    assert_eq!(c.TotalSlot(), 4);
    assert_eq!(c.IncrSlot(3), 3);
    assert_eq!(c.DecrSlot(2), 1);
}

#[test]
fn requests_are_spread_over_free_slots() {
    assert_eq!(AssignReqs(0, 5, 3, &vec![1, 2]), (vec![0, 0], WaitState::WaitReq));
    assert_eq!(AssignReqs(5, 5, 0, &vec![1, 2]), (vec![0, 0], WaitState::WaitSlot));
    assert_eq!(AssignReqs(5, 2, 3, &vec![1, 2]), (vec![1, 1], WaitState::WaitReq));
    assert_eq!(AssignReqs(5, 3, 3, &vec![1, 2]), (vec![1, 2], WaitState::WaitSlot));
}

#[test]
fn new_worker_wanted_at_one_and_a_half_times_the_slots() {
    let c = AgentCounters {
        tenant: "t".to_string(),
        namespace: "n".to_string(),
        func_name: "f".to_string(),
        available_slot: 0,
        total_slot: 3,
        starting_slot: 1,
        next_worker_id: 0,
        next_req_id: 0,
    };
    assert!(!c.NeedNewWorker(5));
    assert!(c.NeedNewWorker(6));
    assert!(c.NeedNewWorker(7));
    let empty = AgentCounters { total_slot: 0, starting_slot: 0, ..c };
    assert!(empty.NeedNewWorker(0));
}

#[test]
fn ready_worker_contributes_its_parallel_level() {
    let mut w = WorkerSlots::new(3);
    assert_eq!(w.State(), FuncWorkerState::Init);
    assert_eq!(w.ReadySlot(), 3);
    w.SetState(FuncWorkerState::Idle);
    assert_eq!(w.State(), FuncWorkerState::Idle);
    w.AssignReq();
    assert_eq!(w.OngoingReq(), 1);
    assert_eq!(w.AvailableSlot(), 2);
}

#[test]
fn process_slots_count_and_wrap() {
    let mut p = ProcessSlot::default();
    p.Inc();
    p.IncBy(4);
    p.Dec();
    assert_eq!(p.Count(), 4);
    p.DecBy(5);
    assert_eq!(p.Count(), usize::MAX);
    p.Inc();
    assert_eq!(p.Count(), 0);
}

#[test]
fn first_ready_worker_with_a_free_slot_is_chosen() {
    let mut starting = WorkerSlots::new(2);
    starting.ongoing = 0;
    let mut full = WorkerSlots::new(1);
    full.state = FuncWorkerState::Processing;
    full.ongoing = 1;
    let mut free = WorkerSlots::new(2);
    free.state = FuncWorkerState::Idle;
    let mut also_free = WorkerSlots::new(2);
    also_free.state = FuncWorkerState::Processing;
    also_free.ongoing = 1;
    assert_eq!(AvailableWorker(&vec![]), None);
    let ws = vec![starting, full, free, also_free];
    assert_eq!(AvailableWorker(&ws), Some(2));
    let busy = vec![WorkerSlots::new(2), WorkerSlots { state: FuncWorkerState::Idle, parallel_level: 1, ongoing: 1, fail_count: 0 }];
    assert_eq!(AvailableWorker(&busy), None);
}

#[test]
fn failed_lease_resets_the_worker_and_fails_waiting_requests() {
    let mut agent = AgentCounters {
        tenant: "t".to_string(),
        namespace: "n".to_string(),
        func_name: "f".to_string(),
        available_slot: 0,
        total_slot: 0,
        starting_slot: 3,
        next_worker_id: 1,
        next_req_id: 2,
    };
    let mut w = WorkerSlots::new(2);
    w.state = FuncWorkerState::Processing;
    let (report, errs) = on_lease_failed(&mut w, &mut agent, &LeaseFailure::Scheduler("no capacity".to_string()), 2);
    assert_eq!(w.state, FuncWorkerState::Init);
    assert_eq!(agent.starting_slot, 1);
    assert_eq!(report, LeaseError::SchedulerErr("no capacity".to_string()));
    assert_eq!(
        errs,
        vec![LeaseError::SchedulerErr("no capacity".to_string()), LeaseError::SchedulerErr("no capacity".to_string())]
    );
    let mut w2 = WorkerSlots::new(1);
    let (report, errs) = on_lease_failed(&mut w2, &mut agent, &LeaseFailure::Other("Timeout".to_string()), 0);
    assert_eq!(report, LeaseError::CommonError("Timeout".to_string()));
    assert!(errs.is_empty());
    assert_eq!(agent.starting_slot, 0);
}
