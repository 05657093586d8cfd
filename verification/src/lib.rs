//! Game logic of a networked werewolf party game: the judger's bookkeeping,
//! the vote rules, the wire protocol between judger and players, and the
//! player-side reactions to protocol messages.

pub mod judger;
pub mod player;
pub mod text;
