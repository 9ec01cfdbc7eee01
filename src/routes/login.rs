pub mod post;
