//! Game logic of a multiplayer maze game: levels, players, the packets of the
//! wire protocol, the server's session table and the client's view of the game.
pub mod constants;
pub mod map;
pub mod player;
pub mod protocol;
pub mod server_state;
pub mod client_state;
pub mod input;
pub mod screen;
pub mod hud;
pub mod minimap;
pub mod raycast;
