pub mod page_frame;
