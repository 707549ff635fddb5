pub mod msdf;
