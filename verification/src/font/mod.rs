pub mod fonts;
