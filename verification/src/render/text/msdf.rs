pub mod manifest;
