//! A small text-templating engine with verified directive processing.
//!
//! A template is text with four kinds of directive: interpolations `{{ name }}`,
//! repetition blocks `{% repeat N times %}...{% endrepeat %}`, conditional blocks
//! `{% if name %}...{% else %}...{% endif %}` and comments `{# ... #}`. Rendering
//! resolves them in that order against a set of bindings.
pub mod text;
pub mod value;
pub mod markers;
pub mod engine;
pub mod laws;

pub use engine::{render, render_strict, RenderError};
pub use value::{Bindings, Value};
