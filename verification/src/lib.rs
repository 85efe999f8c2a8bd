//! Request logic of an image server that keeps its pictures on disk or with a
//! cloud provider: cache keys, storage paths, upload checks, directory listings
//! and the replies that go back to the client.

pub mod assets;
pub mod blob;
pub mod greetings;
pub mod images;
pub mod listing;
pub mod media;
pub mod paths;
pub mod provider;
pub mod reply;
pub mod text;
pub mod upload;
