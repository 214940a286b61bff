//! A component-based user-interface core: a virtual-node tree model with a
//! diff/patch engine, shared node references, and a cooperative lifecycle
//! scheduler.

pub mod attrs;
pub mod djed;
pub mod dom;
pub mod live;
pub mod node_ref;
pub mod scheduler;
pub mod services;
pub mod v_comp;
pub mod v_dom;
pub mod v_list;
pub mod v_node;
pub mod v_tag;
pub mod v_text;
