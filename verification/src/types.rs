//! The data of the marketplace: courses, reviews, categories, profiles and
//! payout instructions, each with a mathematical view used by the contracts.

use vstd::prelude::*;

verus! {

// ---------------------------------------------------------------------------
// Mathematical views
// ---------------------------------------------------------------------------

/// View of one purchase record inside a profile.
#[verifier::ext_equal]
pub struct CoursePurchasedV {
    pub course_id: int,
    pub pass_certification: bool,
}

/// View of one user profile.
#[verifier::ext_equal]
pub struct ProfileV {
    pub user_id: Seq<char>,
    pub purchased_courses: Seq<CoursePurchasedV>,
}

/// View of the mutable part of a category.
#[verifier::ext_equal]
pub struct CategoriesObjectV {
    pub name: Seq<char>,
    pub img: Seq<char>,
}

/// View of a stored category.
#[verifier::ext_equal]
pub struct CategoryV {
    pub id: int,
    pub name: Seq<char>,
    pub img: Seq<char>,
}

/// View of one content item of a course.
#[verifier::ext_equal]
pub struct TemplateV {
    pub title: Seq<char>,
    pub description: Seq<char>,
    pub content: Seq<char>,
    pub tipo: int,
}

/// View of the public projection of a content item.
#[verifier::ext_equal]
pub struct TemplateViewV {
    pub title: Seq<char>,
    pub tipo: int,
}

/// View of one review.
#[verifier::ext_equal]
pub struct ReviewV {
    pub user_id: Seq<char>,
    pub review: Seq<char>,
    pub critics: int,
}

/// View of a stored course.  The rating of a course is the exact rational
/// `rating_sum / reviews.len()`: the numerator is stored, the denominator is
/// the number of reviews.
#[verifier::ext_equal]
pub struct CourseV {
    pub id: int,
    pub creator_id: Seq<char>,
    pub title: Seq<char>,
    pub categories: CategoryV,
    pub short_description: Seq<char>,
    pub long_description: Seq<char>,
    pub img: Seq<char>,
    pub content: Seq<TemplateV>,
    pub price: int,
    pub price_certification: int,
    pub inscriptions: Seq<Seq<char>>,
    pub rating_sum: int,
    pub reviews: Seq<ReviewV>,
}

/// View of the market projection of a course.
#[verifier::ext_equal]
pub struct MarketViewV {
    pub id: int,
    pub creator_id: Seq<char>,
    pub title: Seq<char>,
    pub categories: CategoryV,
    pub short_description: Seq<char>,
    pub long_description: Seq<char>,
    pub img: Seq<char>,
    pub content: Seq<TemplateViewV>,
    pub price: int,
    pub price_certification: int,
    pub rating_sum: int,
    pub reviews: Seq<ReviewV>,
}

/// View of a payout instruction.
#[verifier::ext_equal]
pub struct PayoutV {
    pub to: Seq<char>,
    pub amount: int,
}

// ---------------------------------------------------------------------------
// Executable types
// ---------------------------------------------------------------------------

/// One purchase record inside a profile: a course and whether the user has
/// bought and passed its certification.
pub struct CoursePurchased {
    pub course_id: i128,
    pub pass_certification: bool,
}

/// A user profile: the purchase ledger of one identity.
pub struct ProfileObject {
    pub user_id: String,
    pub purchased_courses: Vec<CoursePurchased>,
}

/// The mutable attributes of a category.
pub struct CategoriesObject {
    pub name: String,
    pub img: String,
}

/// A stored category: a monotonically assigned identifier plus attributes.
pub struct CategoriesJson {
    pub id: i128,
    pub name: String,
    pub img: String,
}

/// One content item of a course; `tipo` is 1 for video and 2 for text.
pub struct TemplateObject {
    pub title: String,
    pub description: String,
    pub content: String,
    pub tipo: i8,
}

/// The public projection of a content item: the body is withheld.
pub struct TemplateView {
    pub title: String,
    pub tipo: i8,
}

/// One review of a course by one identity.
pub struct Review {
    pub user_id: String,
    pub review: String,
    pub critics: i8,
}

/// A stored course.  `rating_sum` is the sum of the critic scores of
/// `reviews`; the rating of the course is `rating_sum / reviews.len()`.
pub struct CoursesObject {
    pub id: i128,
    pub creator_id: String,
    pub title: String,
    pub categories: CategoriesJson,
    pub short_description: String,
    pub long_description: String,
    pub img: String,
    pub content: Vec<TemplateObject>,
    pub price: u128,
    pub price_certification: u128,
    pub inscriptions: Vec<String>,
    pub rating_sum: i128,
    pub reviews: Vec<Review>,
}

/// The market projection of a course: enrollment identities are stripped and
/// content bodies are reduced to title and kind.
pub struct MarketView {
    pub id: i128,
    pub creator_id: String,
    pub title: String,
    pub categories: CategoriesJson,
    pub short_description: String,
    pub long_description: String,
    pub img: String,
    pub content: Vec<TemplateView>,
    pub price: u128,
    pub price_certification: u128,
    pub rating_sum: i128,
    pub reviews: Vec<Review>,
}

/// A value transfer for the host to perform: `amount` currency units to the
/// account `to`.
pub struct Payout {
    pub to: String,
    pub amount: u128,
}

// ---------------------------------------------------------------------------
// View impls
// ---------------------------------------------------------------------------

/// View of a sequence of purchase records.
pub open spec fn purchases_view(v: Seq<CoursePurchased>) -> Seq<CoursePurchasedV> {
    v.map_values(|p: CoursePurchased| p@)
}

/// View of a sequence of profiles.
pub open spec fn profiles_view(v: Seq<ProfileObject>) -> Seq<ProfileV> {
    v.map_values(|p: ProfileObject| p@)
}

/// View of a sequence of categories.
pub open spec fn categories_view(v: Seq<CategoriesJson>) -> Seq<CategoryV> {
    v.map_values(|c: CategoriesJson| c@)
}

/// View of a sequence of content items.
pub open spec fn templates_view(v: Seq<TemplateObject>) -> Seq<TemplateV> {
    v.map_values(|t: TemplateObject| t@)
}

/// View of a sequence of content-item projections.
pub open spec fn template_views_view(v: Seq<TemplateView>) -> Seq<TemplateViewV> {
    v.map_values(|t: TemplateView| t@)
}

/// View of a sequence of reviews.
pub open spec fn reviews_view(v: Seq<Review>) -> Seq<ReviewV> {
    v.map_values(|r: Review| r@)
}

/// View of a sequence of courses.
pub open spec fn courses_view(v: Seq<CoursesObject>) -> Seq<CourseV> {
    v.map_values(|c: CoursesObject| c@)
}

/// View of a sequence of market projections.
pub open spec fn market_views_view(v: Seq<MarketView>) -> Seq<MarketViewV> {
    v.map_values(|m: MarketView| m@)
}

/// View of a sequence of account identities.
pub open spec fn accounts_view(v: Seq<String>) -> Seq<Seq<char>> {
    v.map_values(|a: String| a@)
}

/// View of a sequence of payout instructions.
pub open spec fn payouts_view(v: Seq<Payout>) -> Seq<PayoutV> {
    v.map_values(|p: Payout| p@)
}

impl View for CoursePurchased {
    type V = CoursePurchasedV;

    open spec fn view(&self) -> CoursePurchasedV {
        CoursePurchasedV { course_id: self.course_id as int, pass_certification: self.pass_certification }
    }
}

impl View for ProfileObject {
    type V = ProfileV;

    open spec fn view(&self) -> ProfileV {
        ProfileV {
            user_id: self.user_id@,
            purchased_courses: purchases_view(self.purchased_courses@),
        }
    }
}

impl View for CategoriesObject {
    type V = CategoriesObjectV;

    open spec fn view(&self) -> CategoriesObjectV {
        CategoriesObjectV { name: self.name@, img: self.img@ }
    }
}

impl View for CategoriesJson {
    type V = CategoryV;

    open spec fn view(&self) -> CategoryV {
        CategoryV { id: self.id as int, name: self.name@, img: self.img@ }
    }
}

impl View for TemplateObject {
    type V = TemplateV;

    open spec fn view(&self) -> TemplateV {
        TemplateV {
            title: self.title@,
            description: self.description@,
            content: self.content@,
            tipo: self.tipo as int,
        }
    }
}

impl View for TemplateView {
    type V = TemplateViewV;

    open spec fn view(&self) -> TemplateViewV {
        TemplateViewV { title: self.title@, tipo: self.tipo as int }
    }
}

impl View for Review {
    type V = ReviewV;

    open spec fn view(&self) -> ReviewV {
        ReviewV { user_id: self.user_id@, review: self.review@, critics: self.critics as int }
    }
}

impl View for CoursesObject {
    type V = CourseV;

    open spec fn view(&self) -> CourseV {
        CourseV {
            id: self.id as int,
            creator_id: self.creator_id@,
            title: self.title@,
            categories: self.categories@,
            short_description: self.short_description@,
            long_description: self.long_description@,
            img: self.img@,
            content: templates_view(self.content@),
            price: self.price as int,
            price_certification: self.price_certification as int,
            inscriptions: accounts_view(self.inscriptions@),
            rating_sum: self.rating_sum as int,
            reviews: reviews_view(self.reviews@),
        }
    }
}

impl View for MarketView {
    type V = MarketViewV;

    open spec fn view(&self) -> MarketViewV {
        MarketViewV {
            id: self.id as int,
            creator_id: self.creator_id@,
            title: self.title@,
            categories: self.categories@,
            short_description: self.short_description@,
            long_description: self.long_description@,
            img: self.img@,
            content: template_views_view(self.content@),
            price: self.price as int,
            price_certification: self.price_certification as int,
            rating_sum: self.rating_sum as int,
            reviews: reviews_view(self.reviews@),
        }
    }
}

impl View for Payout {
    type V = PayoutV;

    open spec fn view(&self) -> PayoutV {
        PayoutV { to: self.to@, amount: self.amount as int }
    }
}

// ---------------------------------------------------------------------------
// Clone impls, each with a contract Verus checks
// ---------------------------------------------------------------------------

impl Clone for CoursePurchased {
    fn clone(&self) -> (res: Self)
        ensures
            res == *self,
    {
        CoursePurchased { course_id: self.course_id, pass_certification: self.pass_certification }
    }
}

impl Clone for CategoriesObject {
    fn clone(&self) -> (res: Self)
        ensures
            res == *self,
    {
        CategoriesObject { name: self.name.clone(), img: self.img.clone() }
    }
}

impl Clone for CategoriesJson {
    fn clone(&self) -> (res: Self)
        ensures
            res == *self,
    {
        CategoriesJson { id: self.id, name: self.name.clone(), img: self.img.clone() }
    }
}

impl Clone for TemplateObject {
    fn clone(&self) -> (res: Self)
        ensures
            res == *self,
    {
        TemplateObject {
            title: self.title.clone(),
            description: self.description.clone(),
            content: self.content.clone(),
            tipo: self.tipo,
        }
    }
}

impl Clone for TemplateView {
    fn clone(&self) -> (res: Self)
        ensures
            res == *self,
    {
        TemplateView { title: self.title.clone(), tipo: self.tipo }
    }
}

impl Clone for Review {
    fn clone(&self) -> (res: Self)
        ensures
            res == *self,
    {
        Review { user_id: self.user_id.clone(), review: self.review.clone(), critics: self.critics }
    }
}

impl Clone for Payout {
    fn clone(&self) -> (res: Self)
        ensures
            res == *self,
    {
        Payout { to: self.to.clone(), amount: self.amount }
    }
}

impl Clone for ProfileObject {
    fn clone(&self) -> (res: Self)
        ensures
            res@ == self@,
    {
        let purchased_courses = self.purchased_courses.clone();
        proof {
            assert(purchased_courses@ =~= self.purchased_courses@);
        }
        let res = ProfileObject { user_id: self.user_id.clone(), purchased_courses };
        proof {
            assert(res@ =~= self@);
        }
        res
    }
}

impl Clone for CoursesObject {
    fn clone(&self) -> (res: Self)
        ensures
            res@ == self@,
    {
        let content = self.content.clone();
        let inscriptions = self.inscriptions.clone();
        let reviews = self.reviews.clone();
        proof {
            assert(content@ =~= self.content@);
            assert(inscriptions@ =~= self.inscriptions@);
            assert(reviews@ =~= self.reviews@);
        }
        let res = CoursesObject {
            id: self.id,
            creator_id: self.creator_id.clone(),
            title: self.title.clone(),
            categories: self.categories.clone(),
            short_description: self.short_description.clone(),
            long_description: self.long_description.clone(),
            img: self.img.clone(),
            content,
            price: self.price,
            price_certification: self.price_certification,
            inscriptions,
            rating_sum: self.rating_sum,
            reviews,
        };
        proof {
            assert(res@ =~= self@);
        }
        res
    }
}

} // verus!
