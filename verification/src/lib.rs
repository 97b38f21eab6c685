//! Driver library for MKS Servo42C closed-loop stepper motors spoken to
//! over a serial line, together with the byte codecs, the test link and
//! the small traits that the controllers build on.

pub mod serialtrait;
pub mod sendable;
pub mod serial_test;
pub mod read_loop;
pub mod servo42;
pub mod protocol;
pub mod standard;
pub mod motortrait;
pub mod action;
pub mod motor_thread;
pub mod commands;
