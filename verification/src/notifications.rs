//! Delivering notifications.

use vstd::prelude::*;
use crate::domain::Notification;

verus! {

/// Where notifications go.
pub trait NotificationSink {
    /// Delivers `notification`.
    fn send(&self, notification: &Notification);
}

/// Drops every notification.
pub struct NullSink;

impl NotificationSink for NullSink {
    fn send(&self, _notification: &Notification) {
    }
}

} // verus!
