//! MarketLab core logic.
//!
//! - OTL scripts: `script` (normalizing shader and `fn main` sources to one
//!   expression), `signature` (typed parameters and ports), `lexer`,
//!   `compile_context` (which names are series and which are scalars),
//!   `parser` (expression trees), `series_resolve` and `ta_config` (where a
//!   prim's script comes from), `ta_uber` (TA archetypes).
//! - Assets and stages: `otc` (the `.otc` binary asset format), `stage_graph`
//!   (passive stage snapshots), `graph` (the execution graph and its order),
//!   `schema`, `sublayers` and `layers` (USD layer text and layer-stack
//!   state), `taxonomy`, `topology` (prim types and the strategy tree),
//!   `weights`, `portfolio`.
//! - Geometric algebra: `ga_registry` (indicators and request resolution),
//!   `ga_bridge`.
//! - Workstation state: `workspace_ui` (panels, shelves, selection and
//!   engine-cache generations), `canvas`, `stage_overlay` (runtime edits
//!   layered above a composed stage), `sweep_schedule` (when the graph
//!   engine is recompiled and the timeline swept).
//! - Helpers: `text`, `path`, `ast`.

pub mod text;
pub mod otc;
pub mod script;
pub mod ta_uber;
pub mod taxonomy;
pub mod ast;
pub mod calls;
pub mod ga_bridge;
pub mod portfolio;
pub mod ga_registry;
pub mod series_resolve;
pub mod path;
pub mod layers;
pub mod sublayers;
pub mod stage_graph;
pub mod schema;
pub mod topology;
pub mod lexer;
pub mod signature;
pub mod weights;
pub mod ta_config;
pub mod workspace_ui;
pub mod compile_context;
pub mod parser;
pub mod canvas;
pub mod graph;
pub mod stage_overlay;
pub mod sweep_schedule;
