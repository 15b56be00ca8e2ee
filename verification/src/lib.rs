pub mod arabot;
