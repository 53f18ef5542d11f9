//! Renders a crafting recipe (nine ingredient names) as a text table framed
//! by a Markdown code fence, and decides the replies of a recipe bot.

pub mod text;
pub mod table;
pub mod table_laws;
pub mod recipe;
pub mod scrape;
pub mod scrape_laws;
