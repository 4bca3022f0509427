//! A runtime for dependency properties: observable, overridable slots on
//! owners that live in a store, with inheritance down the owners' hierarchy,
//! styles, bubbling events and observable collections.
//!
//! The library keeps the state and decides who is told what, and in which
//! order. It knows a handler by an identifier only: an operation that owes
//! calls to handlers returns them as a list, and the caller makes the calls.
//!
//! [`model`] holds the mathematical model of a store, over which every
//! contract is stated; [`laws`] holds what follows for all stores.

pub mod cache;
pub mod change;
pub mod entry;
pub mod event;
pub mod handlers;
pub mod laws;
pub mod model;
pub mod notify;
pub mod prop;
pub mod source;
pub mod store;
pub mod style;
pub mod styling;
pub mod teardown;
pub mod tree;
pub mod vec;

pub use change::Change;
pub use change::Items;
pub use entry::Binding;
pub use entry::DepEventEntry;
pub use entry::DepPropEntry;
pub use entry::DepVecEntry;
pub use event::DepEvent;
pub use event::DepEventArgs;
pub use event::DepEventSource;
pub use handlers::HandlerList;
pub use notify::Glob;
pub use notify::Notification;
pub use notify::Payload;
pub use prop::DepProp;
pub use source::Bound;
pub use source::DepPropChangeSource;
pub use source::DepPropSet;
pub use source::DepPropValueSource;
pub use source::HandledEventSource;
pub use source::HandledValueSource;
pub use store::BaseDepObjCore;
pub use store::Owner;
pub use store::Store;
pub use style::Setter;
pub use style::Style;
pub use vec::DepVec;
pub use vec::DepVecChangedSource;
pub use vec::DepVecInsertedItemsSource;
pub use vec::DepVecRemovedItemsSource;
pub use vec::VecDispatch;
pub use vec::VecEvent;
pub use vec::VecNotification;
