//! Core logic of a menu-bar reporter for live streaming channels.
//!
//! The library turns cursor-paginated list responses into finite item
//! sequences, splits large id sets into request-sized chunks, merges the
//! fetched records into keyed maps, reconciles a small persisted preference
//! store, and builds the filtered, grouped and sorted report view. All
//! network, file and rendering work lives outside the library; it hands the
//! library plain values and receives plain values back.

mod chunks;
mod cursor;
mod errors;
mod keymap;
mod model;
mod pipeline;
mod render;
mod store;
mod time;
mod view;

pub use chunks::CHUNK_LIMIT;
pub use chunks::chunk_ids;
pub use chunks::lemma_chunk_count_is_ceil;
pub use chunks::spec_chunk_count;
pub use chunks::spec_chunk_end;
pub use cursor::CursorEvent;
pub use cursor::CursorState;
pub use cursor::PAGE_SIZE;
pub use cursor::PageCursor;
pub use cursor::spec_page_transition;
pub use errors::Error;
pub use errors::classify_http_status;
pub use keymap::IdSet;
pub use keymap::KeyMap;
pub use keymap::lemma_id_set_contains;
pub use keymap::lemma_key_map_contains;
pub use keymap::spec_id_set;
pub use keymap::spec_key_map;
pub use model::Follow;
pub use model::Game;
pub use model::Stream;
pub use model::StreamKind;
pub use model::User;
pub use pipeline::add_streams;
pub use pipeline::distinct_game_ids;
pub use pipeline::lemma_distinct_game_ids_contains;
pub use pipeline::lemma_distinct_game_ids_no_dup;
pub use pipeline::lemma_merge_games_dom;
pub use pipeline::lemma_merge_games_last_wins;
pub use pipeline::lemma_merge_games_untouched;
pub use pipeline::lemma_merge_users_dom;
pub use pipeline::lemma_merge_users_last_wins;
pub use pipeline::lemma_merge_users_untouched;
pub use pipeline::merge_games;
pub use pipeline::merge_users;
pub use pipeline::online_stream_ids;
pub use pipeline::spec_distinct_game_ids;
pub use pipeline::spec_game_ids;
pub use pipeline::spec_id_texts;
pub use pipeline::spec_merge_games;
pub use pipeline::spec_merge_users;
pub use pipeline::spec_stream_ids;
pub use pipeline::spec_user_ids;
pub use render::COMMAND_MAX_PARTS;
pub use render::build_defer_command;
pub use render::decimal_string;
pub use render::duration_text;
pub use render::spec_decimal;
pub use render::spec_digit;
pub use render::spec_duration_text;
pub use render::spec_elapsed;
pub use store::PreferenceStore;
pub use store::check_defer_args;
pub use store::lemma_hide_idempotent;
pub use store::lemma_reconcile_idempotent;
pub use store::spec_deferral_active;
pub use store::spec_hidden_games_for;
pub use time::is_deferred_now;
pub use view::GameGroup;
pub use view::GroupView;
pub use view::ItemView;
pub use view::ViewItem;
pub use view::build_view;
pub use view::lemma_groups_partition_streams;
pub use view::lemma_no_streams_empty_view;
pub use view::lemma_view_partitions_streams;
pub use view::spec_concat_group_streams;
pub use view::filter_streams;
pub use view::game_display_name;
pub use view::lemma_insert_group_desc_at;
pub use view::lemma_insert_group_desc_multiset;
pub use view::lemma_insert_group_desc_sorted;
pub use view::lemma_insert_stream_desc_at;
pub use view::lemma_insert_stream_desc_multiset;
pub use view::lemma_insert_stream_desc_sorted;
pub use view::lemma_sort_groups_desc_permutes;
pub use view::lemma_sort_groups_desc_sorted;
pub use view::lemma_sort_groups_desc_stable;
pub use view::lemma_sort_streams_desc_permutes;
pub use view::lemma_sort_streams_desc_sorted;
pub use view::lemma_sort_streams_desc_stable;
pub use view::sort_streams_desc;
pub use view::spec_filtered;
pub use view::spec_game_name;
pub use view::spec_group_for;
pub use view::spec_group_views;
pub use view::spec_groups_for;
pub use view::spec_groups_sorted_desc;
pub use view::spec_insert_group_desc;
pub use view::spec_insert_stream_desc;
pub use view::spec_item_views;
pub use view::spec_sat_add;
pub use view::spec_sort_groups_desc;
pub use view::spec_sort_streams_desc;
pub use view::spec_sorted_desc;
pub use view::spec_streams_of_game;
pub use view::spec_total_viewers;
pub use view::spec_users_known;
pub use view::spec_with_count;
pub use view::spec_with_total;
pub use view::spec_view_items;
pub use view::spec_visible;
pub use view::streams_of_game;
pub use view::total_viewers;
pub use view::view_items;
