pub mod bits;
pub mod bitboard;
pub mod fixed;
pub mod text;
pub mod notation;
pub mod kifu;
pub mod edaxrunner;
pub mod duelresult;
pub mod myoption;
pub mod weight;
pub mod gtprotocol;
pub mod lexorder;
pub mod initialpos;
pub mod game;
pub mod cassio;
pub mod extractrfen;
pub mod shnode;
pub mod properties;
pub mod roundtrip;
pub mod engine_output;
pub mod kifu_laws;
pub mod openings;
pub mod display;
