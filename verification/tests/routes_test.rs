use splendor_duel_engine::routes::{content_type, parse_request, parse_u64, parse_usize, static_target, Route, StaticTarget};

fn route(text: &str) -> Route {
    parse_request(text.as_bytes())
}

#[test]
fn test_route_bad_request() {
    assert_eq!(route(""), Route::BadRequest);
    assert_eq!(route("GET\r\nHost: x\r\n\r\n"), Route::BadRequest);
}

#[test]
fn test_route_game_api() {
    assert_eq!(route("GET /api/game/state HTTP/1.1\r\n\r\n"), Route::GameState);
    assert_eq!(route("GET /api/game/history HTTP/1.1\r\n\r\n"), Route::GameHistory);
    assert_eq!(route("POST /api/game/action HTTP/1.1\r\n\r\n{}"), Route::GameAction);
    assert_eq!(route("GET /api/game/ai_step HTTP/1.1\r\n\r\n"), Route::GameAiStep);
    assert_eq!(route("POST /api/game/ai_step HTTP/1.1\r\n\r\n"), Route::GameAiStep);
    assert_eq!(route("POST /api/game/to_replay HTTP/1.1\r\n\r\n"), Route::GameToReplay);
    assert_eq!(route("GET /api/status HTTP/1.1\r\n\r\n"), Route::Status);
    assert_eq!(route("GET /api/neural_status HTTP/1.1\r\n\r\n"), Route::NeuralStatus);
    assert_eq!(route("POST /api/neural_reload HTTP/1.1\r\n\r\n"), Route::NeuralReload);
    assert_eq!(route("GET /api/play_to_end HTTP/1.1\r\n\r\n"), Route::PlayToEnd);
    assert_eq!(route("GET /api/history HTTP/1.1\r\n\r\n"), Route::ReplayHistory);
}

#[test]
fn test_route_game_step_index() {
    assert_eq!(route("GET /api/game/step HTTP/1.1\r\n\r\n"), Route::GameStep { index: None });
    assert_eq!(route("GET /api/game/step?index=3 HTTP/1.1\r\n\r\n"), Route::GameStep { index: Some(3) });
    assert_eq!(route("GET /api/game/step?step=12 HTTP/1.1\r\n\r\n"), Route::GameStep { index: Some(12) });
    assert_eq!(route("GET /api/game/step?index=x HTTP/1.1\r\n\r\n"), Route::GameStep { index: None });
    assert_eq!(
        route("GET /api/game/step?index=2&step=5 HTTP/1.1\r\n\r\n"),
        Route::GameStep { index: Some(5) }
    );
}

#[test]
fn test_route_game_reset_params() {
    assert_eq!(
        route("POST /api/game/reset HTTP/1.1\r\n\r\n"),
        Route::GameReset { seed: 42, p0: None, p1: None }
    );
    assert_eq!(
        route("GET /api/game/reset?seed=7&p0=human&p1=neural HTTP/1.1\r\n\r\n"),
        Route::GameReset { seed: 7, p0: Some(b"human".to_vec()), p1: Some(b"neural".to_vec()) }
    );
    assert_eq!(
        route("POST /api/game/new?seed=abc HTTP/1.1\r\n\r\n"),
        Route::GameReset { seed: 42, p0: None, p1: None }
    );
}

#[test]
fn test_route_replay_api() {
    assert_eq!(route("POST /api/step HTTP/1.1\r\n\r\n"), Route::ReplayStepNext { count: 1 });
    assert_eq!(route("GET /api/step_next?count=4 HTTP/1.1\r\n\r\n"), Route::ReplayStepNext { count: 4 });
    assert_eq!(route("GET /api/step_next?count=-1 HTTP/1.1\r\n\r\n"), Route::ReplayStepNext { count: 1 });
    assert_eq!(route("GET /api/step HTTP/1.1\r\n\r\n"), Route::ReplayStepAt { index: 0 });
    assert_eq!(route("GET /api/step?index=9 HTTP/1.1\r\n\r\n"), Route::ReplayStepAt { index: 9 });
    assert_eq!(
        route("GET /api/set_players?p0=random HTTP/1.1\r\n\r\n"),
        Route::SetPlayers { p0: Some(b"random".to_vec()), p1: None }
    );
    assert_eq!(
        route("POST /api/reset?seed=11&play_to_end=1&p1=neural HTTP/1.1\r\n\r\n"),
        Route::ReplayReset { seed: 11, play_to_end: true, p0: None, p1: Some(b"neural".to_vec()) }
    );
    assert_eq!(
        route("GET /api/reset?play_to_end=yes HTTP/1.1\r\n\r\n"),
        Route::ReplayReset { seed: 42, play_to_end: false, p0: None, p1: None }
    );
}

#[test]
fn test_route_static_and_methods() {
    assert_eq!(
        route("GET /img/card.png HTTP/1.1\r\n\r\n"),
        Route::Static { head: false, path: b"/img/card.png".to_vec() }
    );
    assert_eq!(
        route("HEAD /replay HTTP/1.1\r\n\r\n"),
        Route::Static { head: true, path: b"/replay".to_vec() }
    );
    assert_eq!(
        route("GET /app.js?v=3 HTTP/1.1\r\n\r\n"),
        Route::Static { head: false, path: b"/app.js".to_vec() }
    );
    assert_eq!(route("DELETE /api/game/state HTTP/1.1\r\n\r\n"), Route::NotAllowed);
    assert_eq!(route("POST /api/game/state HTTP/1.1\r\n\r\n"), Route::NotAllowed);
}

#[test]
fn test_static_targets() {
    assert_eq!(static_target(b"/"), StaticTarget::GamePage);
    assert_eq!(static_target(b"/index.html"), StaticTarget::GamePage);
    assert_eq!(static_target(b"/play"), StaticTarget::GamePage);
    assert_eq!(static_target(b"/play.html"), StaticTarget::GamePage);
    assert_eq!(static_target(b"/replay"), StaticTarget::ReplayPage);
    assert_eq!(static_target(b"//css/site.css"), StaticTarget::File(b"css/site.css".to_vec()));
}

#[test]
fn test_content_types() {
    assert_eq!(content_type(b"html"), "text/html; charset=utf-8");
    assert_eq!(content_type(b"js"), "application/javascript; charset=utf-8");
    assert_eq!(content_type(b"css"), "text/css; charset=utf-8");
    assert_eq!(content_type(b"webp"), "image/webp");
    assert_eq!(content_type(b"png"), "image/png");
    assert_eq!(content_type(b"jpg"), "image/jpeg");
    assert_eq!(content_type(b"jpeg"), "image/jpeg");
    assert_eq!(content_type(b"svg"), "image/svg+xml");
    assert_eq!(content_type(b"json"), "application/json");
    assert_eq!(content_type(b"exe"), "application/octet-stream");
}

#[test]
fn test_parse_numbers() {
    assert_eq!(parse_u64(b"0"), Some(0));
    assert_eq!(parse_u64(b"18446744073709551615"), Some(u64::MAX));
    assert_eq!(parse_u64(b"18446744073709551616"), None);
    assert_eq!(parse_u64(b"+5"), Some(5));
    assert_eq!(parse_u64(b""), None);
    assert_eq!(parse_u64(b"1a"), None);
    assert_eq!(parse_usize(b"42"), Some(42));
    assert_eq!(parse_usize(b"-1"), None);
}
