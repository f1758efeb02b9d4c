use vstd::prelude::*;

verus! {

/// Every way an operation of the library can fail.
#[derive(PartialEq, Eq, Structural, Clone, Copy, Debug)]
pub enum Error {
    AuthenticationRequired,
    MustNotBeAuthenticated,
    PendingUserNotFound,
    MaxRegistrationAttemptsReached,
    RegistrationCodeExpired,
    InvalidRegistrationCode,
    EmailAlreadyExists,
    UsernameAlreadyExists,
    InvalidNamespace,
    InvalidGroupName,
    InvalidGroupDescription,
    NamespaceAlreadyExists,
    GroupNotFound,
    NamespaceNotFound,
    AdminRoleRequired,
    SubscriptionIsActive,
    PermissionDenied,
    NewsletterListNotFound,
    ContactsCsvTooLarge,
    InvalidCsv,
    InvalidEmail,
    InvalidContactName,
}

} // verus!
