pub mod anime;
pub mod aniskip;
pub mod data;
pub mod history;
pub mod hooks;
pub mod login;
pub mod mal;
pub mod matching;
pub mod menu;
pub mod paths;
pub mod playback;
pub mod player;
pub mod script;
pub mod sorting;
pub mod text;
pub mod timer;
