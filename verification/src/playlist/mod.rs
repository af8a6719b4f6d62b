//! Playlists.

pub mod codec;
pub mod codec_laws;
pub mod variant;
pub mod timeline_laws;
pub mod track_text_laws;
pub mod master;
pub mod master_laws;
pub mod master_text_laws;
pub mod selection_laws;
