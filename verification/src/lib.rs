//! Recording and replaying terminal sessions in the asciicast format, with a
//! bridge that keeps the meaning of Windows console input while recording.
//!
//! Output of the recorded program runs through [`tracker`], which divides it with
//! [`lexer`] along [`grammar`], keeps changes of input modes ([`modes`],
//! [`dec_modes`]) to itself and answers questions to the terminal. Console input
//! ([`console`], [`decoded`]) runs through [`encoder`], which turns keys
//! ([`keyboard`]) and the mouse ([`mouse`]) into what the program expects in these
//! modes. [`record`] is the loop around both, [`bridge`] the setup of the console,
//! [`cast`] what is written to the recording, and [`play`] and [`explain`] what comes
//! of it later. The modules whose names end in `_laws` state what holds of these for all
//! input.

pub mod bridge;
pub mod bytes;
pub mod cast;
pub mod cast_laws;
pub mod console;
pub mod dec_modes;
pub mod decoded;
pub mod encoder;
pub mod encoder_laws;
pub mod explain;
pub mod grammar;
pub mod keyboard;
pub mod keyboard_laws;
pub mod lexer;
pub mod modes;
pub mod mouse;
pub mod mouse_laws;
pub mod numbers;
pub mod play;
pub mod record;
pub mod record_laws;
pub mod size;
pub mod stream_laws;
pub mod tracker;
pub mod tracker_laws;
pub mod utf8;
