//! Synchronizes project records between a central project-tracking service
//! ("Hula") and two remote systems (a Hubspot deal pipeline and an Odoo
//! backend). The library holds the verified core: the reconciliation engine
//! that decides which remote entities are new and which changed, the sync-log
//! and call-log bookkeeping, and the bootstrap logic that derives the
//! incremental-fetch window from the call log.

mod ids;

pub mod calllog;
pub mod digits;
pub mod hubspot;
pub mod hula;
pub mod odoo;
pub mod schedule;
pub mod time;
