//! Filters offered to templates: case conversions and UUIDs.
use vstd::prelude::*;

verus! {

/// The lower camel case form of a text (`fooBar`).
pub uninterp spec fn lower_camel_of(s: Seq<char>) -> Seq<char>;

/// The upper camel case form of a text (`FooBar`).
pub uninterp spec fn pascal_of(s: Seq<char>) -> Seq<char>;

/// The snake case form of a text (`foo_bar`).
pub uninterp spec fn snake_of(s: Seq<char>) -> Seq<char>;

/// The kebab case form of a text (`foo-bar`).
pub uninterp spec fn kebab_of(s: Seq<char>) -> Seq<char>;

/// The shouty snake case form of a text (`FOO_BAR`).
pub uninterp spec fn shouty_snake_of(s: Seq<char>) -> Seq<char>;

/// The name-based (version 5) UUID of `name` under `namespace`.
pub uninterp spec fn uuid_v5_of(namespace: u128, name: Seq<char>) -> u128;

/// The hyphenated lower-case text of a UUID.
pub uninterp spec fn uuid_text_of(id: u128) -> Seq<char>;

/// Relies on `heck::ToLowerCamelCase::to_lower_camel_case`.
#[verifier::external_body]
fn lower_camel(s: &str) -> (r: String)
    ensures
        r@ == lower_camel_of(s@),
{
    heck::ToLowerCamelCase::to_lower_camel_case(s)
}

/// Relies on `heck::ToPascalCase::to_pascal_case`.
#[verifier::external_body]
fn pascal(s: &str) -> (r: String)
    ensures
        r@ == pascal_of(s@),
{
    heck::ToPascalCase::to_pascal_case(s)
}

/// Relies on `heck::ToSnakeCase::to_snake_case`.
#[verifier::external_body]
fn snake(s: &str) -> (r: String)
    ensures
        r@ == snake_of(s@),
{
    heck::ToSnakeCase::to_snake_case(s)
}

/// Relies on `heck::ToKebabCase::to_kebab_case`.
#[verifier::external_body]
fn kebab(s: &str) -> (r: String)
    ensures
        r@ == kebab_of(s@),
{
    heck::ToKebabCase::to_kebab_case(s)
}

/// Relies on `heck::ToShoutySnakeCase::to_shouty_snake_case`.
#[verifier::external_body]
fn shouty_snake(s: &str) -> (r: String)
    ensures
        r@ == shouty_snake_of(s@),
{
    heck::ToShoutySnakeCase::to_shouty_snake_case(s)
}

/// Relies on `uuid::Uuid::new_v5`: SHA-1 name-based UUID of the bytes of `name`.
#[verifier::external_body]
fn uuid_v5(namespace: u128, name: &str) -> (r: u128)
    ensures
        r == uuid_v5_of(namespace, name@),
{
    uuid::Uuid::new_v5(&uuid::Uuid::from_u128(namespace), name.as_bytes()).as_u128()
}

/// Relies on `uuid::Uuid::new_v4`: a random UUID.
#[verifier::external_body]
fn uuid_v4() -> (r: u128) {
    uuid::Uuid::new_v4().as_u128()
}

/// Relies on the `Display` of `uuid::Uuid`: the hyphenated form, 36 characters.
#[verifier::external_body]
fn uuid_text(id: u128) -> (r: String)
    ensures
        r@ == uuid_text_of(id),
        r@.len() == 36,
{
    uuid::Uuid::from_u128(id).to_string()
}

/// The DNS namespace of RFC 4122, `6ba7b810-9dad-11d1-80b4-00c04fd430c8`.
pub const NAMESPACE_DNS: u128 = 0x6ba7b8109dad11d180b400c04fd430c8;

pub open spec fn vendor_name() -> Seq<char> {
    "com.github.pytemplify"@
}

/// The vendor namespace: the version 5 UUID of the vendor name under the DNS namespace.
pub open spec fn vendor_namespace() -> u128 {
    uuid_v5_of(NAMESPACE_DNS, vendor_name())
}

pub fn camelcase(s: String) -> (r: String)
    ensures
        r@ == lower_camel_of(s@),
{
    lower_camel(s.as_str())
}

pub fn pascalcase(s: String) -> (r: String)
    ensures
        r@ == pascal_of(s@),
{
    pascal(s.as_str())
}

pub fn snakecase(s: String) -> (r: String)
    ensures
        r@ == snake_of(s@),
{
    snake(s.as_str())
}

pub fn kebabcase(s: String) -> (r: String)
    ensures
        r@ == kebab_of(s@),
{
    kebab(s.as_str())
}

pub fn screamingsnakecase(s: String) -> (r: String)
    ensures
        r@ == shouty_snake_of(s@),
{
    shouty_snake(s.as_str())
}

/// A UUID: for a non-empty seed, the version 5 UUID of the seed under the vendor
/// namespace, so the same seed always gives the same text; otherwise a random one.
pub fn uuid_generate(val: Option<String>) -> (r: String)
    ensures
        r@.len() == 36,
        val matches Some(s) ==> (s@.len() > 0 ==> r@ == uuid_text_of(uuid_v5_of(vendor_namespace(), s@))),
{
    match val {
        Some(s) if s.unicode_len() > 0 => {
            let vendor = "com.github.pytemplify";
            let ns = uuid_v5(NAMESPACE_DNS, vendor);
            uuid_text(uuid_v5(ns, s.as_str()))
        },
        _ => uuid_text(uuid_v4()),
    }
}

} // verus!
