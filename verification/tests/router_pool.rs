use rust_webserver::HttpRequest;
use rust_webserver::HttpResponse;
use rust_webserver::Job;
use rust_webserver::Message;
use rust_webserver::Route;
use rust_webserver::Router;
use rust_webserver::ThreadPool;

#[test]
fn register_then_lookup_returns_latest_handler() {
    let mut router: Router<u32> = Router::new(Vec::new());
    router.add_route("/x".to_string(), 1);
    let found = router.get_handler("/x").expect("registered");
    assert_eq!(found.path, "/x");
    assert_eq!(found.handler, 1);
    router.add_route("/x".to_string(), 2);
    let found = router.get_handler("/x").expect("still registered");
    assert_eq!(found.handler, 2);
}

#[test]
fn lookup_of_unregistered_path_is_none() {
    let mut router: Router<u32> = Router::new(Vec::new());
    router.add_route("/x".to_string(), 1);
    assert!(router.get_handler("/y").is_none());
    assert!(router.get_handler("/x/").is_none());
    assert!(router.get_handler("").is_none());
}

#[test]
fn router_built_from_list_prefers_later_duplicates() {
    let routes = vec![
        Route::new("/a".to_string(), 10u32),
        Route::new("/b".to_string(), 20u32),
        Route::new("/a".to_string(), 30u32),
    ];
    let router = Router::new(routes);
    assert_eq!(router.get_handler("/a").expect("registered").handler, 30);
    assert_eq!(router.get_handler("/b").expect("registered").handler, 20);
}

fn echo_version(request: HttpRequest) -> HttpResponse {
    HttpResponse::with_content(request.version, "text/html".to_string(), "ok".to_string())
}

#[test]
fn route_handle_invokes_the_handler() {
    let route = Route::new(
        "/echo".to_string(),
        echo_version as fn(HttpRequest) -> HttpResponse,
    );
    let req = HttpRequest::from("GET /echo HTTP/1.1\r\n\r\n").expect("well-formed");
    let resp = route.handle(req);
    assert_eq!(resp.status_code, "200");
    let text = String::from_utf8(resp.as_bytes()).expect("valid UTF-8");
    assert!(text.starts_with("HTTP/1.1 200 OK\r\n"));
}

#[test]
fn pool_runs_each_submitted_item_exactly_once() {
    let mut pool: ThreadPool<String> = ThreadPool::new(2);
    let submitted = 5u64;
    for i in 0..submitted {
        let id = pool.execute(format!("work-{}", i)).expect("pool accepts work");
        assert_eq!(id, i);
    }
    let mut seen: Vec<u64> = Vec::new();
    let mut worker = 0usize;
    loop {
        match pool.next_message(worker) {
            Some(Message::NewJob(Job { id, work })) => {
                assert_eq!(work, format!("work-{}", id));
                seen.push(id);
            }
            Some(Message::Terminate) => panic!("no stop was signalled"),
            None => break,
        }
        worker = (worker + 1) % 2;
    }
    seen.sort();
    let expected: Vec<u64> = (0..submitted).collect();
    assert_eq!(seen, expected);
}

#[test]
fn pool_delivers_in_submission_order() {
    let mut pool: ThreadPool<u8> = ThreadPool::new(1);
    for b in 0..4u8 {
        pool.execute(b).expect("accepted");
    }
    let mut order: Vec<u8> = Vec::new();
    while let Some(Message::NewJob(job)) = pool.next_message(0) {
        order.push(job.work);
    }
    assert_eq!(order, vec![0, 1, 2, 3]);
}

#[test]
fn stopped_pool_refuses_new_work_and_terminates_every_worker() {
    let workers = 3usize;
    let mut pool: ThreadPool<&'static str> = ThreadPool::new(workers);
    pool.execute("before-stop").expect("accepted");
    pool.stop();
    let rejected = pool.execute("after-stop");
    assert_eq!(rejected, Err("after-stop"));

    let mut jobs_run = 0;
    let mut terminated: Vec<usize> = Vec::new();
    for w in 0..workers {
        loop {
            match pool.next_message(w) {
                Some(Message::NewJob(_)) => jobs_run += 1,
                Some(Message::Terminate) => {
                    terminated.push(w);
                    break;
                }
                None => panic!("a stop signal must be waiting for worker {}", w),
            }
        }
    }
    assert_eq!(jobs_run, 1);
    assert_eq!(terminated, vec![0, 1, 2]);
    for w in 0..workers {
        assert!(pool.workers[w].terminated);
    }
}
