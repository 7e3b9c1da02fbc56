use snake_game::spectator::{retain_delivered, GameSnapshot, SpectatorHandle};
use std::sync::mpsc;

fn sample(tick: u64) -> GameSnapshot {
    GameSnapshot {
        width: 15,
        height: 15,
        snake: vec![(4, 2), (3, 2), (2, 2)],
        food: Some((6, 4)),
        score: 3,
        state: String::from("playing"),
        tick,
    }
}

#[test]
fn failed_connections_are_dropped_others_kept_in_order() {
    let clients = vec!["a", "b", "c", "d"];
    let kept = retain_delivered(clients, &vec![true, false, true, true]);
    assert_eq!(kept, vec!["a", "c", "d"]);
}

#[test]
fn all_failed_or_all_delivered() {
    assert_eq!(retain_delivered(vec![1, 2, 3], &vec![false, false, false]), Vec::<i32>::new());
    assert_eq!(retain_delivered(vec![1, 2, 3], &vec![true, true, true]), vec![1, 2, 3]);
    assert_eq!(retain_delivered(Vec::<u8>::new(), &vec![]), Vec::<u8>::new());
}

#[test]
fn failure_does_not_stop_later_snapshots() {
    let mut clients = vec![10, 20, 30];
    clients = retain_delivered(clients, &vec![true, false, true]);
    assert_eq!(clients, vec![10, 30]);
    clients = retain_delivered(clients, &vec![true, true]);
    assert_eq!(clients, vec![10, 30]);
}

#[test]
fn handle_queues_snapshots_in_order() {
    let (tx, rx) = mpsc::channel();
    let h = SpectatorHandle::from_sender(tx);
    h.send(sample(1));
    h.send(sample(2));
    assert_eq!(rx.recv().unwrap().tick, 1);
    let s = rx.recv().unwrap();
    assert_eq!(s.tick, 2);
    assert_eq!(s.snake, vec![(4, 2), (3, 2), (2, 2)]);
}

#[test]
fn handle_send_after_worker_gone_is_silent() {
    let (tx, rx) = mpsc::channel();
    drop(rx);
    let h = SpectatorHandle::from_sender(tx);
    h.send(sample(7));
}

use snake_game::spectator::{request_path, route, Route};

#[test]
fn request_path_is_second_word_of_first_line() {
    assert_eq!(request_path(b"GET /health HTTP/1.1\r\nHost: x\r\n\r\n"), b"/health".to_vec());
    assert_eq!(request_path(b"  GET\t/spectator.html  HTTP/1.1"), b"/spectator.html".to_vec());
    assert_eq!(request_path(b"GET /a/b?c=d HTTP/1.1\n/other"), b"/a/b?c=d".to_vec());
}

#[test]
fn request_path_defaults_to_root() {
    assert_eq!(request_path(b""), b"/".to_vec());
    assert_eq!(request_path(b"GET"), b"/".to_vec());
    assert_eq!(request_path(b"GET\r\n/health"), b"/".to_vec());
    assert_eq!(request_path(b"   \r\n"), b"/".to_vec());
}

#[test]
fn routes_cover_three_paths() {
    assert_eq!(route(b"/"), Route::Viewer);
    assert_eq!(route(b"/spectator.html"), Route::Viewer);
    assert_eq!(route(b"/health"), Route::Health);
    assert_eq!(route(b"/healthz"), Route::NotFound);
    assert_eq!(route(b"/spectator.htm"), Route::NotFound);
    assert_eq!(route(b""), Route::NotFound);
}

#[test]
fn route_responses() {
    assert_eq!(Route::Viewer.status(), "200 OK");
    assert_eq!(Route::Health.status(), "200 OK");
    assert_eq!(Route::NotFound.status(), "404 Not Found");
    assert_eq!(Route::Health.content_type(), "text/plain; charset=utf-8");
    assert_eq!(Route::Viewer.content_type(), "text/html; charset=utf-8");
    assert_eq!(Route::NotFound.content_type(), "text/html; charset=utf-8");
    assert_eq!(Route::Viewer.fixed_body(), None);
    assert_eq!(Route::Health.fixed_body(), Some("ok"));
    assert_eq!(Route::NotFound.fixed_body(), Some("not found"));
}
