pub mod sync_global;
pub mod sync_ctx;
pub mod absorb_sync;
pub mod resolve_player;
pub mod answer_join;
pub mod absorb_welcome;
pub mod spawn_ctx;
pub mod spawn_on_join;
pub mod spawn_on_join_ctx;
pub mod spawn_pending_join;
pub mod decide_join_commit;
pub mod absorb_join_commit;
pub mod tick_presence;
pub mod despawn_on_leave;
pub mod leave_ctx;
pub mod absorb_roster;
pub mod absorb_click_gossip;
pub mod apply_delta;
pub mod absorb_gossip;
pub mod reveal_on_join;
pub mod absorb_snapshot;
pub mod drain_pending;
pub mod send_sync_req;
pub mod send_want_join;
pub mod send_sync_heartbeat;
pub mod publish_snapshot;
pub mod request_snapshot;
pub mod subscribe_roster;
pub mod tick_log;
pub mod click;
pub mod update_score;
pub mod tick_join_countdown;
pub mod spawn_cursor;
pub mod publish_cursor;
pub mod log_connected;
