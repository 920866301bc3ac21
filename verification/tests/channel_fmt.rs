use nix_sweep::fmt::left_pad;
use nix_sweep::fmt::right_pad;
use nix_sweep::fmt::FmtAge;
use nix_sweep::fmt::FmtBracketed;
use nix_sweep::fmt::FmtOrNA;
use nix_sweep::fmt::FmtPercentage;
use nix_sweep::fmt::FmtPrefix;
use nix_sweep::fmt::FmtSize;
use nix_sweep::fmt::FmtSuffix;
use nix_sweep::fmt::FmtWithEllipsis;
use nix_sweep::fmt::Formattable;
use nix_sweep::interaction::announce_gc_roots;
use nix_sweep::ordered_channel::OrderedChannel;

#[test]
fn channel_yields_in_index_order_whatever_the_put_order() {
    let mut channel: OrderedChannel<&str> = OrderedChannel::new();
    let items = ["zero", "one", "two", "three", "four"];
    for i in (0..items.len()).rev() {
        channel.put(i, items[i]);
    }
    let mut iter = channel.iter(items.len());
    let mut got: Vec<&str> = Vec::new();
    let mut yields = 0;
    while let Some(v) = iter.next() {
        got.push(v);
        yields += 1;
    }
    assert_eq!(yields, items.len());
    assert_eq!(got, items.to_vec());
    assert!(iter.next().is_none());
}

#[test]
fn channel_get_removes() {
    let mut channel: OrderedChannel<u32> = OrderedChannel::new();
    channel.put(3, 30);
    assert_eq!(channel.get(3), Some(30));
    assert_eq!(channel.get(3), None);
    assert_eq!(channel.get(0), None);
}

#[test]
fn channel_put_replaces() {
    let mut channel: OrderedChannel<u32> = OrderedChannel::new();
    channel.put(1, 10);
    channel.put(1, 11);
    assert_eq!(channel.get(1), Some(11));
}

#[test]
fn size_rendering() {
    assert_eq!(FmtSize::new(200).render(), "200 bytes");
    assert_eq!(FmtSize::new(2048 * 1024).render(), "2.00 MiB");
    assert_eq!(FmtSize::new(0).render(), "0 bytes");
}

#[test]
fn percentage_rendering_and_padding() {
    assert_eq!(FmtPercentage::new(50, 200).render(), "25%");
    assert_eq!(left_pad(&FmtPercentage::new(10, 200)), " 5%");
    assert_eq!(right_pad(&FmtPercentage::new(10, 200)), "5% ");
}

#[test]
fn age_rendering_buckets() {
    assert_eq!(FmtAge::new(30).render(), "30 sec");
    assert_eq!(FmtAge::new(90).render(), "1 min");
    assert_eq!(FmtAge::new(3700).render(), "1 hour");
    assert_eq!(FmtAge::new(7200).render(), "2 hours");
    assert_eq!(FmtAge::new(86400).render(), "1 day");
    assert_eq!(FmtAge::new(2 * 86400).render(), "2 days");
    assert_eq!(FmtAge::new(400 * 86400).render(), "57 weeks");
    assert_eq!(FmtAge::new(3 * 365 * 86400).render(), "3 years");
}

#[test]
fn brackets_round_and_square() {
    assert_eq!(FmtBracketed::new(FmtAge::new(30)).render(), "(30 sec)");
    assert_eq!(
        FmtBracketed::new(FmtAge::new(30)).with_square_brackets().render(),
        "[30 sec]"
    );
}

#[test]
fn optional_values() {
    let present: FmtOrNA<FmtAge> = FmtOrNA::with(FmtAge::new(30));
    assert_eq!(present.render(), "30 sec");
    let absent: FmtOrNA<FmtAge> = FmtOrNA::na();
    assert_eq!(absent.render(), "n/a");
    let silent: FmtOrNA<FmtAge> = FmtOrNA::na().or_empty();
    assert_eq!(silent.render(), "");
    let mapped = FmtOrNA::mapped(Some(60u64), FmtAge::new);
    assert_eq!(mapped.render(), "1 min");
    let unmapped: FmtOrNA<FmtAge> = FmtOrNA::mapped(None, FmtAge::new);
    assert_eq!(unmapped.render(), "n/a");
}

#[test]
fn prefix_and_suffix() {
    let p: FmtPrefix<6, FmtSize> = FmtPrefix::new(FmtSize::new(200), "saves ".to_string());
    assert_eq!(p.render(), "saves 200 bytes");
    let s: FmtSuffix<4, FmtAge> = FmtSuffix::new(FmtAge::new(30), " old".to_string());
    assert_eq!(s.render(), "30 sec old");
    assert_eq!(left_pad(&s), "   30 sec old");
}

#[test]
fn ellipsis_truncation() {
    let cut = FmtWithEllipsis::new("/a/rather/long/path".to_string(), 10);
    assert_eq!(cut.render(), "/a/rath...");
    let whole = FmtWithEllipsis::new("/short".to_string(), 10);
    assert_eq!(whole.render(), "/short");
    assert_eq!(whole.right_pad(), "/short    ");
    let untouched =
        FmtWithEllipsis::new("/a/rather/long/path".to_string(), 10).truncate_if(false);
    assert_eq!(untouched.render(), "/a/rather/long/path");
}

#[test]
fn announcements() {
    assert_eq!(
        announce_gc_roots(10, 3),
        "Listing 3 gc roots (out of 10 total)"
    );
}
