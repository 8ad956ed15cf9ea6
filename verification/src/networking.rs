pub mod bluetooth;
