//! Canonical product data and the raw shapes of Shopify's `product.json`.
//!
//! Amounts of money are whole cents (`i64`), and other fractional
//! quantities (weights, rates, ratings) are thousandths (`*_milli`), so
//! that every field is an exact value. Timestamps are seconds and
//! nanoseconds since the Unix epoch, in UTC.
use vstd::prelude::*;
use crate::fieldmap::FieldMap;


verus! {

/// A point in time: seconds since the Unix epoch (UTC) and nanoseconds.
#[derive(Clone, Copy, Debug, PartialEq, Eq, Structural)]
pub struct Timestamp {
    pub unix_seconds: i64,
    pub nanos: u32,
}

/// One product image.
#[derive(Debug)]
pub struct ProductImage {
    pub src: String,
    pub alt: Option<String>,
    pub width: Option<u32>,
    pub height: Option<u32>,
    pub position: Option<u32>,
}

impl Clone for ProductImage {
    fn clone(&self) -> (r: Self)
        ensures
            r == *self,
    {
        ProductImage {
            src: self.src.clone(),
            alt: self.alt.clone(),
            width: self.width,
            height: self.height,
            position: self.position,
        }
    }
}

/// One purchasable variant of a product, in canonical form.
#[derive(Debug)]
pub struct ProductVariant {
    pub id: String,
    pub title: String,
    pub price_cents: i64,
    pub sku: String,
    pub inventory_quantity: i32,
    pub available: bool,
    pub weight_milli: i64,
    pub weight_unit: String,
    pub option1: Option<String>,
    pub option2: Option<String>,
    pub option3: Option<String>,
    pub barcode: Option<String>,
    pub compare_at_price_cents: Option<i64>,
    pub fulfillment_service: Option<String>,
    pub inventory_management: Option<String>,
    pub inventory_policy: Option<String>,
    pub requires_shipping: Option<bool>,
    pub taxable: Option<bool>,
    pub tax_code: Option<String>,
}

impl Clone for ProductVariant {
    fn clone(&self) -> (r: Self)
        ensures
            r == *self,
    {
        ProductVariant {
            id: self.id.clone(),
            title: self.title.clone(),
            price_cents: self.price_cents,
            sku: self.sku.clone(),
            inventory_quantity: self.inventory_quantity,
            available: self.available,
            weight_milli: self.weight_milli,
            weight_unit: self.weight_unit.clone(),
            option1: self.option1.clone(),
            option2: self.option2.clone(),
            option3: self.option3.clone(),
            barcode: self.barcode.clone(),
            compare_at_price_cents: self.compare_at_price_cents,
            fulfillment_service: self.fulfillment_service.clone(),
            inventory_management: self.inventory_management.clone(),
            inventory_policy: self.inventory_policy.clone(),
            requires_shipping: self.requires_shipping,
            taxable: self.taxable,
            tax_code: self.tax_code.clone(),
        }
    }
}

/// Search-engine and social-card metadata.
#[derive(Debug)]
pub struct SeoData {
    pub meta_title: Option<String>,
    pub meta_description: Option<String>,
    pub meta_keywords: Option<String>,
    pub canonical_url: Option<String>,
    pub og_title: Option<String>,
    pub og_description: Option<String>,
    pub og_image: Option<String>,
    pub twitter_title: Option<String>,
    pub twitter_description: Option<String>,
    pub twitter_image: Option<String>,
}

impl Clone for SeoData {
    fn clone(&self) -> (r: Self)
        ensures
            r == *self,
    {
        SeoData {
            meta_title: self.meta_title.clone(),
            meta_description: self.meta_description.clone(),
            meta_keywords: self.meta_keywords.clone(),
            canonical_url: self.canonical_url.clone(),
            og_title: self.og_title.clone(),
            og_description: self.og_description.clone(),
            og_image: self.og_image.clone(),
            twitter_title: self.twitter_title.clone(),
            twitter_description: self.twitter_description.clone(),
            twitter_image: self.twitter_image.clone(),
        }
    }
}

/// Sales figures; rates and turnover in thousandths, revenue in cents.
#[derive(Debug, Clone, Copy)]
pub struct AnalyticsData {
    pub views: Option<u64>,
    pub conversions: Option<u64>,
    pub conversion_rate_milli: Option<i64>,
    pub revenue_cents: Option<i64>,
    pub profit_margin_milli: Option<i64>,
    pub inventory_turnover_milli: Option<i64>,
}

/// How many reviews gave one rating.
#[derive(Debug)]
pub struct RatingCount {
    pub rating: String,
    pub count: u32,
}

impl Clone for RatingCount {
    fn clone(&self) -> (r: Self)
        ensures
            r == *self,
    {
        RatingCount { rating: self.rating.clone(), count: self.count }
    }
}

/// One customer review.
#[derive(Debug)]
pub struct Review {
    pub id: String,
    pub author: String,
    pub rating: u8,
    pub title: String,
    pub content: String,
    pub created_at: Timestamp,
    pub verified: bool,
}

impl Clone for Review {
    fn clone(&self) -> (r: Self)
        ensures
            r == *self,
    {
        Review {
            id: self.id.clone(),
            author: self.author.clone(),
            rating: self.rating,
            title: self.title.clone(),
            content: self.content.clone(),
            created_at: self.created_at,
            verified: self.verified,
        }
    }
}

/// The contents of an optional vector.
pub open spec fn opt_seq<T>(o: Option<Vec<T>>) -> Option<Seq<T>> {
    match o {
        Some(v) => Some(v@),
        None => None,
    }
}

/// Review summary; the average rating in thousandths.
#[derive(Debug)]
pub struct ReviewsData {
    pub average_rating_milli: Option<i64>,
    pub total_reviews: Option<u32>,
    pub rating_distribution: Option<Vec<RatingCount>>,
    pub recent_reviews: Option<Vec<Review>>,
}

/// The contents of review data.
pub struct ReviewsView {
    pub average_rating_milli: Option<i64>,
    pub total_reviews: Option<u32>,
    pub rating_distribution: Option<Seq<RatingCount>>,
    pub recent_reviews: Option<Seq<Review>>,
}

impl View for ReviewsData {
    type V = ReviewsView;

    open spec fn view(&self) -> ReviewsView {
        ReviewsView {
            average_rating_milli: self.average_rating_milli,
            total_reviews: self.total_reviews,
            rating_distribution: opt_seq(self.rating_distribution),
            recent_reviews: opt_seq(self.recent_reviews),
        }
    }
}

impl Clone for ReviewsData {
    fn clone(&self) -> (r: Self)
        ensures
            r@ == self@,
    {
        let rating_distribution = match &self.rating_distribution {
            Some(v) => Some(v.clone()),
            None => None,
        };
        let recent_reviews = match &self.recent_reviews {
            Some(v) => Some(v.clone()),
            None => None,
        };
        proof {
            if let Some(v) = &self.rating_distribution {
                assert(rating_distribution.unwrap()@ =~= v@);
            }
            if let Some(v) = &self.recent_reviews {
                assert(recent_reviews.unwrap()@ =~= v@);
            }
        }
        ReviewsData {
            average_rating_milli: self.average_rating_milli,
            total_reviews: self.total_reviews,
            rating_distribution,
            recent_reviews,
        }
    }
}

/// One way of shipping; its price in cents.
#[derive(Debug)]
pub struct ShippingMethod {
    pub name: String,
    pub price_cents: i64,
    pub currency: String,
    pub delivery_time: String,
    pub free_shipping: bool,
}

impl Clone for ShippingMethod {
    fn clone(&self) -> (r: Self)
        ensures
            r == *self,
    {
        ShippingMethod {
            name: self.name.clone(),
            price_cents: self.price_cents,
            currency: self.currency.clone(),
            delivery_time: self.delivery_time.clone(),
            free_shipping: self.free_shipping,
        }
    }
}

/// Shipping terms; the free-shipping threshold in cents.
#[derive(Debug)]
pub struct ShippingInfo {
    pub free_shipping_threshold_cents: Option<i64>,
    pub shipping_methods: Vec<ShippingMethod>,
    pub estimated_delivery: Option<String>,
    pub international_shipping: bool,
}

/// The contents of shipping terms.
pub struct ShippingView {
    pub free_shipping_threshold_cents: Option<i64>,
    pub shipping_methods: Seq<ShippingMethod>,
    pub estimated_delivery: Option<String>,
    pub international_shipping: bool,
}

impl View for ShippingInfo {
    type V = ShippingView;

    open spec fn view(&self) -> ShippingView {
        ShippingView {
            free_shipping_threshold_cents: self.free_shipping_threshold_cents,
            shipping_methods: self.shipping_methods@,
            estimated_delivery: self.estimated_delivery,
            international_shipping: self.international_shipping,
        }
    }
}

impl Clone for ShippingInfo {
    fn clone(&self) -> (r: Self)
        ensures
            r@ == self@,
    {
        let shipping_methods = self.shipping_methods.clone();
        proof {
            assert(shipping_methods@ =~= self.shipping_methods@);
        }
        ShippingInfo {
            free_shipping_threshold_cents: self.free_shipping_threshold_cents,
            shipping_methods,
            estimated_delivery: self.estimated_delivery.clone(),
            international_shipping: self.international_shipping,
        }
    }
}


/// The contents of an optional value with a view.
pub open spec fn opt_view<T: View>(o: Option<T>) -> Option<T::V> {
    match o {
        Some(x) => Some(x@),
        None => None,
    }
}

/// The texts of strings.
pub open spec fn texts_of(v: Seq<String>) -> Seq<Seq<char>> {
    v.map_values(|s: String| s@)
}

/// The texts of an optional list of strings.
pub open spec fn opt_texts_of(o: Option<Vec<String>>) -> Option<Seq<Seq<char>>> {
    match o {
        Some(v) => Some(texts_of(v@)),
        None => None,
    }
}

/// The contents of a canonical product: texts as character sequences,
/// lists as sequences, custom fields as a map.
pub struct ProductView {
    pub id: Seq<char>,
    pub title: Seq<char>,
    pub description: Seq<char>,
    pub price_cents: i64,
    pub currency: Seq<char>,
    pub availability: bool,
    pub vendor: Seq<char>,
    pub product_type: Seq<char>,
    pub tags: Seq<Seq<char>>,
    pub images: Seq<ProductImage>,
    pub variants: Seq<ProductVariant>,
    pub created_at: Timestamp,
    pub updated_at: Timestamp,
    pub handle: Seq<char>,
    pub url: Seq<char>,
    pub seo_data: Option<SeoData>,
    pub analytics_data: Option<AnalyticsData>,
    pub related_products: Option<Seq<Seq<char>>>,
    pub reviews: Option<ReviewsView>,
    pub collections: Option<Seq<Seq<char>>>,
    pub custom_fields: Option<Map<Seq<char>, Seq<char>>>,
    pub shipping_info: Option<ShippingView>,
    pub return_policy: Option<String>,
    pub warranty: Option<String>,
    pub title_de: Option<String>,
    pub title_fr: Option<String>,
    pub title_es: Option<String>,
    pub description_de: Option<String>,
    pub description_fr: Option<String>,
    pub description_es: Option<String>,
}

/// A product in canonical form. Field names follow the canonical rules
/// (English, clear but concise, singular for one value and plural for
/// lists); translations carry a language suffix.
#[derive(Debug)]
pub struct ShopifyProduct {
    pub id: String,
    pub title: String,
    pub description: String,
    pub price_cents: i64,
    pub currency: String,
    pub availability: bool,
    pub vendor: String,
    pub product_type: String,
    pub tags: Vec<String>,
    pub images: Vec<ProductImage>,
    pub variants: Vec<ProductVariant>,
    pub created_at: Timestamp,
    pub updated_at: Timestamp,
    pub handle: String,
    pub url: String,
    pub seo_data: Option<SeoData>,
    pub analytics_data: Option<AnalyticsData>,
    pub related_products: Option<Vec<String>>,
    pub reviews: Option<ReviewsData>,
    pub collections: Option<Vec<String>>,
    pub custom_fields: Option<FieldMap>,
    pub shipping_info: Option<ShippingInfo>,
    pub return_policy: Option<String>,
    pub warranty: Option<String>,
    pub title_de: Option<String>,
    pub title_fr: Option<String>,
    pub title_es: Option<String>,
    pub description_de: Option<String>,
    pub description_fr: Option<String>,
    pub description_es: Option<String>,
}

impl View for ShopifyProduct {
    type V = ProductView;

    open spec fn view(&self) -> ProductView {
        ProductView {
            id: self.id@,
            title: self.title@,
            description: self.description@,
            price_cents: self.price_cents,
            currency: self.currency@,
            availability: self.availability,
            vendor: self.vendor@,
            product_type: self.product_type@,
            tags: texts_of(self.tags@),
            images: self.images@,
            variants: self.variants@,
            created_at: self.created_at,
            updated_at: self.updated_at,
            handle: self.handle@,
            url: self.url@,
            seo_data: self.seo_data,
            analytics_data: self.analytics_data,
            related_products: opt_texts_of(self.related_products),
            reviews: opt_view(self.reviews),
            collections: opt_texts_of(self.collections),
            custom_fields: opt_view(self.custom_fields),
            shipping_info: opt_view(self.shipping_info),
            return_policy: self.return_policy,
            warranty: self.warranty,
            title_de: self.title_de,
            title_fr: self.title_fr,
            title_es: self.title_es,
            description_de: self.description_de,
            description_fr: self.description_fr,
            description_es: self.description_es,
        }
    }
}

/// A copy of a list of strings.
pub fn clone_strings(v: &Vec<String>) -> (r: Vec<String>)
    ensures
        r@ == v@,
{
    let r = v.clone();
    proof {
        assert(r@ =~= v@);
    }
    r
}

fn clone_opt_strings(o: &Option<Vec<String>>) -> (r: Option<Vec<String>>)
    ensures
        opt_texts_of(r) == opt_texts_of(*o),
{
    match o {
        Some(v) => Some(clone_strings(v)),
        None => None,
    }
}

impl Clone for ShopifyProduct {
    fn clone(&self) -> (r: Self)
        ensures
            r@ == self@,
    {
        let tags = clone_strings(&self.tags);
        let images = self.images.clone();
        let variants = self.variants.clone();
        proof {
            assert(images@ =~= self.images@);
            assert(variants@ =~= self.variants@);
        }
        let reviews = match &self.reviews {
            Some(x) => Some(x.clone()),
            None => None,
        };
        let custom_fields = match &self.custom_fields {
            Some(x) => Some(x.clone()),
            None => None,
        };
        let shipping_info = match &self.shipping_info {
            Some(x) => Some(x.clone()),
            None => None,
        };
        ShopifyProduct {
            id: self.id.clone(),
            title: self.title.clone(),
            description: self.description.clone(),
            price_cents: self.price_cents,
            currency: self.currency.clone(),
            availability: self.availability,
            vendor: self.vendor.clone(),
            product_type: self.product_type.clone(),
            tags,
            images,
            variants,
            created_at: self.created_at,
            updated_at: self.updated_at,
            handle: self.handle.clone(),
            url: self.url.clone(),
            seo_data: self.seo_data.clone(),
            analytics_data: self.analytics_data,
            related_products: clone_opt_strings(&self.related_products),
            reviews,
            collections: clone_opt_strings(&self.collections),
            custom_fields,
            shipping_info,
            return_policy: self.return_policy.clone(),
            warranty: self.warranty.clone(),
            title_de: self.title_de.clone(),
            title_fr: self.title_fr.clone(),
            title_es: self.title_es.clone(),
            description_de: self.description_de.clone(),
            description_fr: self.description_fr.clone(),
            description_es: self.description_es.clone(),
        }
    }
}

/// The body of Shopify's `/products/<handle>.json`.
#[derive(Debug)]
pub struct ShopifyApiResponse {
    pub product: RawShopifyProduct,
}

/// A product as Shopify's API returns it.
#[derive(Debug)]
pub struct RawShopifyProduct {
    pub id: u64,
    pub title: String,
    pub body_html: Option<String>,
    pub vendor: String,
    pub product_type: String,
    pub tags: String,
    pub available: Option<bool>,
    pub created_at: Timestamp,
    pub updated_at: Timestamp,
    pub handle: String,
    pub variants: Vec<RawProductVariant>,
    pub images: Vec<RawProductImage>,
    pub options: Option<Vec<RawProductOption>>,
    pub metafields: Option<Vec<RawMetafield>>,
}

/// A variant as Shopify's API returns it: prices are decimal strings, the
/// weight in thousandths of its unit.
#[derive(Debug)]
pub struct RawProductVariant {
    pub id: u64,
    pub title: String,
    pub price: String,
    pub sku: String,
    pub inventory_quantity: Option<i32>,
    pub available: Option<bool>,
    pub weight_milli: Option<i64>,
    pub weight_unit: Option<String>,
    pub option1: Option<String>,
    pub option2: Option<String>,
    pub option3: Option<String>,
    pub barcode: Option<String>,
    pub compare_at_price: Option<String>,
    pub fulfillment_service: Option<String>,
    pub inventory_management: Option<String>,
    pub inventory_policy: Option<String>,
    pub requires_shipping: Option<bool>,
    pub taxable: Option<bool>,
    pub tax_code: Option<String>,
}

/// An image as Shopify's API returns it.
#[derive(Debug)]
pub struct RawProductImage {
    pub src: String,
    pub alt: Option<String>,
    pub width: Option<u32>,
    pub height: Option<u32>,
    pub position: Option<u32>,
}

/// A product option (size, colour, ...) and its values.
#[derive(Debug)]
pub struct RawProductOption {
    pub id: u64,
    pub name: String,
    pub values: Vec<String>,
}

/// A metafield attached to a product.
#[derive(Debug)]
pub struct RawMetafield {
    pub id: u64,
    pub namespace: String,
    pub key: String,
    pub value: String,
    pub value_type: String,
}

} // verus!
