pub mod batch;
pub mod config;
pub mod copy_new_videos;
pub mod encrypt;
pub mod error;
pub mod hash_file;
pub mod hex;
pub mod ingest;
pub mod library;
pub mod order;
pub mod prepare_new_videos_for_tagging;
pub mod protected_videos;
pub mod re_encode_videos;
pub mod render_pages;
pub mod restrictions;
pub mod round_trip;
pub mod sync_build_videos;
pub mod tags_file;
pub mod text;
pub mod update_thumbnails;
