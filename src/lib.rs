//! A Minesweeper engine built from independent components that talk only
//! through a message fabric: a routing registry wires producers to consumers,
//! each component owns a mailbox, and a driver pumps the mailboxes until no
//! message is left in flight.

pub mod options;
pub mod rect;
pub mod layout;
pub mod message;
pub mod network;
pub mod exchange;
pub mod wiring;
pub mod minefield;
pub mod draw;
pub mod tile;
pub mod flagcounter;
pub mod button;
pub mod timecounter;
pub mod background;
pub mod grid;
pub mod game;

pub use options::{Level, Options};
pub use rect::{Point, Rect};
pub use layout::Layout;
pub use message::{ChannelMessage, Error, GameState, MouseButton, MouseEventData};
pub use network::{Network, Receiver, Sender};
pub use exchange::{Exchange, MessageExchange, Sprite};
pub use wiring::{ChannelWiring, TheChannelWiring};
pub use minefield::Minefield;
pub use draw::{render_digit, Draw, FaceImage, Image, TileImage};
pub use tile::{Tile, TileState};
pub use flagcounter::FlagCounter;
pub use button::{Button, ButtonState};
pub use timecounter::TimeCounter;
pub use background::Background;
pub use grid::Grid;
pub use game::Game;
