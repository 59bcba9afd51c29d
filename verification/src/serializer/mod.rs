pub mod hwpx;
