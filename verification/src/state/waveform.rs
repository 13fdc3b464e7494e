pub mod timescale;
