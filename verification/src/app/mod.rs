//! What the program decides: files, ratings, sessions, thumbnails and the
//! window.
pub mod agenda;
pub mod browse;
pub mod control;
pub mod deleted;
pub mod deletion;
pub mod disk;
pub mod display;
pub mod drills;
pub mod events;
pub mod filmstrip;
pub mod info;
pub mod io;
pub mod menu;
pub mod options;
pub mod path_map;
pub mod path_set;
pub mod promises;
pub mod rating;
pub mod saving;
pub mod scan;
pub mod session;
pub mod shortcuts;
pub mod showing;
pub mod smoke;
pub mod startup;
pub mod state;
pub mod status;
pub mod strip;
pub mod textures;
pub mod thumbnails;
pub mod upload;
