//! Recipes: ingredient lines and the document grammar.
use std::collections::HashMap;
use vstd::prelude::*;
use crate::measurements::{Imperial, Metric, Volume, Weight};
use crate::render::{volume_imperial_text, volume_metric_text, weight_imperial_text, weight_metric_text};
use crate::text::{is_ws, trim_start, chars_of, find_from, find_from_exec, lemma_find_from_bounds, lemma_find_from_skip, occurs_at, occurs_at_exec, rskip_ws, rskip_ws_at, rskip_ws_in, rskip_ws_in_at, skip_ws, skip_ws_at, skip_ws_in, skip_ws_in_at, slice_string};
use crate::units::quantity_outcome;

verus! {

/// Why a recipe document could not be read.
#[derive(Clone, Debug, PartialEq, Eq)]
pub enum RecipeError {
    ExpectedTitle,
    ExpectedImageHref,
    ExpectedIngredientsStart,
    ExpectedIngredient,
    ExpectedStepsStart,
    UnexpectedEOF(String),
    CustomString(String),
}

/// The content of a quantity: its kind and its canonical amount.
#[derive(Clone, Copy, Debug, PartialEq, Eq)]
pub enum QuantityModel {
    Weight(u64),
    Volume(u64),
}

/// The amount of an ingredient, shown in the unit system `T`.
#[derive(Clone, PartialEq, Debug)]
pub enum IngredientQuantity<T = Metric> {
    Weight(Weight<T>),
    Volume(Volume<T>),
}

impl<T> View for IngredientQuantity<T> {
    type V = QuantityModel;

    open spec fn view(&self) -> QuantityModel {
        match self {
            IngredientQuantity::Weight(w) => QuantityModel::Weight(w@),
            IngredientQuantity::Volume(v) => QuantityModel::Volume(v@),
        }
    }
}

impl<T> IngredientQuantity<T> {
    /// The same quantity, shown in imperial units.
    pub fn as_imperial(self) -> (r: IngredientQuantity<Imperial>)
        ensures
            r@ == self@,
    {
        match self {
            IngredientQuantity::Weight(w) => IngredientQuantity::Weight(w.as_imperial()),
            IngredientQuantity::Volume(v) => IngredientQuantity::Volume(v.as_imperial()),
        }
    }

    /// The same quantity, shown in metric units.
    pub fn as_metric(self) -> (r: IngredientQuantity<Metric>)
        ensures
            r@ == self@,
    {
        match self {
            IngredientQuantity::Weight(w) => IngredientQuantity::Weight(w.as_metric()),
            IngredientQuantity::Volume(v) => IngredientQuantity::Volume(v.as_metric()),
        }
    }
}

/// The content of an ingredient line.
pub struct IngredientModel {
    pub ingredient: Seq<char>,
    pub quantity: Option<QuantityModel>,
}

/// One line of the ingredient list: a name and, where the line opens with one, a quantity.
#[derive(Debug, Clone, PartialEq)]
pub struct Ingredient<T = Metric> {
    pub ingredient: String,
    pub quantity: Option<IngredientQuantity<T>>,
}

pub open spec fn quantity_view<T>(q: Option<IngredientQuantity<T>>) -> Option<QuantityModel> {
    match q {
        Some(x) => Some(x@),
        None => None,
    }
}

impl<T> View for Ingredient<T> {
    type V = IngredientModel;

    open spec fn view(&self) -> IngredientModel {
        IngredientModel { ingredient: self.ingredient@, quantity: quantity_view(self.quantity) }
    }
}

/// Where the quantity of line `s` ends: at its second space, or at its end.
pub open spec fn amount_end(s: Seq<char>) -> int {
    let first = find_from(s, seq![' '], 0);
    let second = if first < 0 {
        -1
    } else {
        find_from(s, seq![' '], first + 1)
    };
    if second < 0 {
        s.len() as int
    } else {
        second
    }
}

/// The quantity that line `s` may open with: up to its second space, without trailing whitespace.
pub open spec fn amount_candidate(s: Seq<char>) -> Seq<char> {
    s.subrange(0, rskip_ws(s, amount_end(s)))
}

/// What follows the quantity of line `s`, without leading whitespace.
pub open spec fn name_after_amount(s: Seq<char>) -> Seq<char> {
    s.subrange(skip_ws(s, amount_end(s)), s.len() as int)
}

/// The ingredient that the non-empty line `s` describes: a weight if its
/// opening words read as one, else a volume if they read as one, else a name alone.
pub open spec fn ingredient_model(s: Seq<char>) -> IngredientModel {
    let c = amount_candidate(s);
    match quantity_outcome(c, false) {
        Ok(w) => IngredientModel {
            ingredient: name_after_amount(s),
            quantity: Some(QuantityModel::Weight(w)),
        },
        Err(_) => match quantity_outcome(c, true) {
            Ok(v) => IngredientModel {
                ingredient: name_after_amount(s),
                quantity: Some(QuantityModel::Volume(v)),
            },
            Err(_) => IngredientModel { ingredient: s, quantity: None },
        },
    }
}

impl<T> Ingredient<T> {
    /// The same ingredient, shown in imperial units.
    pub fn as_imperial(self) -> (r: Ingredient<Imperial>)
        ensures
            r@ == self@,
    {
        let ingredient = self.ingredient;
        let quantity = match self.quantity {
            Some(q) => Some(q.as_imperial()),
            None => None,
        };
        Ingredient { ingredient, quantity }
    }

    /// The same ingredient, shown in metric units.
    pub fn as_metric(self) -> (r: Ingredient<Metric>)
        ensures
            r@ == self@,
    {
        let ingredient = self.ingredient;
        let quantity = match self.quantity {
            Some(q) => Some(q.as_metric()),
            None => None,
        };
        Ingredient { ingredient, quantity }
    }
}

impl Ingredient {
    /// Reads one ingredient line such as `2 cups of flour` or `a pinch of salt`.
    pub fn parse(s: &str) -> (r: Result<Ingredient, RecipeError>)
        ensures
            s@.len() == 0 ==> r == Err::<Ingredient, RecipeError>(RecipeError::ExpectedIngredient),
            s@.len() > 0 ==> r is Ok && r->Ok_0@ == ingredient_model(s@),
    {
        let v = chars_of(s);
        if v.len() == 0 {
            return Err(RecipeError::ExpectedIngredient);
        }
        let space = vec![' '];
        assert(space@ =~= seq![' ']);
        let ae: usize = match find_from_exec(&v, &space, 0) {
            None => v.len(),
            Some(first) => {
                proof {
                    lemma_find_from_bounds(v@, seq![' '], 0);
                }
                match find_from_exec(&v, &space, first + 1) {
                    None => v.len(),
                    Some(second) => {
                        proof {
                            lemma_find_from_bounds(v@, seq![' '], first + 1);
                        }
                        second
                    },
                }
            },
        };
        assert(ae as int == amount_end(v@));
        let ce = rskip_ws_at(&v, ae);
        let candidate = s.substring_char(0, ce);
        let ns = skip_ws_at(&v, ae);
        assert(v@.subrange(0, v@.len() as int) =~= v@);
        match Weight::parse(candidate) {
            Ok(w) => {
                return Ok(
                    Ingredient {
                        ingredient: slice_string(s, ns, v.len()),
                        quantity: Some(IngredientQuantity::Weight(w)),
                    },
                );
            },
            Err(_) => {},
        }
        match Volume::parse(candidate) {
            Ok(q) => Ok(
                Ingredient {
                    ingredient: slice_string(s, ns, v.len()),
                    quantity: Some(IngredientQuantity::Volume(q)),
                },
            ),
            Err(_) => Ok(Ingredient { ingredient: slice_string(s, 0, v.len()), quantity: None }),
        }
    }
}

impl std::str::FromStr for Ingredient {
    type Err = RecipeError;

    fn from_str(s: &str) -> (r: Result<Ingredient, RecipeError>)
        ensures
            s@.len() == 0 ==> r == Err::<Ingredient, RecipeError>(RecipeError::ExpectedIngredient),
            s@.len() > 0 ==> r is Ok && r->Ok_0@ == ingredient_model(s@),
    {
        Ingredient::parse(s)
    }
}

/// A group of ingredient lists, by section name.
#[derive(Debug, Clone, PartialEq)]
pub struct Ingredients<T = Metric> {
    pub sections: HashMap<String, Vec<Ingredient<T>>>,
}

/// One paragraph of instructions.
#[derive(Debug, Clone, PartialEq)]
pub struct Step {
    pub body: String,
}

/// Where the recipe's picture is found.
#[derive(Debug, Clone, PartialEq)]
pub struct Image {
    pub href: String,
}

/// A recipe, its quantities shown in the unit system `T`.
#[derive(Debug, Clone, PartialEq)]
pub struct Recipe<T = Metric> {
    pub title: String,
    pub image: Option<Image>,
    pub introduction: Option<String>,
    pub ingredients: Vec<Ingredient<T>>,
    pub steps: Vec<Step>,
}

/// The content of a recipe.
pub struct RecipeModel {
    pub title: Seq<char>,
    pub image: Option<Seq<char>>,
    pub introduction: Option<Seq<char>>,
    pub ingredients: Seq<IngredientModel>,
    pub steps: Seq<Seq<char>>,
}

pub open spec fn image_view(i: Option<Image>) -> Option<Seq<char>> {
    match i {
        Some(x) => Some(x.href@),
        None => None,
    }
}

pub open spec fn text_view(t: Option<String>) -> Option<Seq<char>> {
    match t {
        Some(x) => Some(x@),
        None => None,
    }
}

impl<T> View for Recipe<T> {
    type V = RecipeModel;

    open spec fn view(&self) -> RecipeModel {
        RecipeModel {
            title: self.title@,
            image: image_view(self.image),
            introduction: text_view(self.introduction),
            ingredients: self.ingredients@.map_values(|i: Ingredient<T>| i@),
            steps: self.steps@.map_values(|s: Step| s.body@),
        }
    }
}

/// What can go wrong when a recipe document is read.
#[derive(Clone, Copy, Debug, PartialEq, Eq)]
pub enum RecipeFault {
    ExpectedTitle,
    ExpectedImageHref,
    ExpectedIngredientsStart,
    ExpectedIngredient,
    ExpectedStepsStart,
    UnexpectedEndInIngredients,
}

/// `e` reports the fault `f`.
pub open spec fn recipe_reports(e: RecipeError, f: RecipeFault) -> bool {
    match f {
        RecipeFault::ExpectedTitle => e is ExpectedTitle,
        RecipeFault::ExpectedImageHref => e is ExpectedImageHref,
        RecipeFault::ExpectedIngredientsStart => e is ExpectedIngredientsStart,
        RecipeFault::ExpectedIngredient => e is ExpectedIngredient,
        RecipeFault::ExpectedStepsStart => e is ExpectedStepsStart,
        RecipeFault::UnexpectedEndInIngredients => e is UnexpectedEOF && e->UnexpectedEOF_0@
            == "Ingredient"@,
    }
}

/// The blank line that ends a section.
pub open spec fn blank() -> Seq<char> {
    seq!['\n', '\n']
}

pub open spec fn image_marker() -> Seq<char> {
    seq!['i', 'm', 'a', 'g', 'e', ':']
}

pub open spec fn ingredients_marker() -> Seq<char> {
    seq!['-', '-', '-', 'i', 'n', 'g', 'r', 'e', 'd', 'i', 'e', 'n', 't', 's']
}

pub open spec fn steps_marker() -> Seq<char> {
    seq!['-', '-', '-', 's', 't', 'e', 'p', 's']
}

/// The optional section that starts at `p` when `present`: the text from
/// `skip` up to the next blank line, and the position after it.
pub open spec fn section_at(s: Seq<char>, p: int, skip: int) -> Result<(Seq<char>, int), RecipeFault> {
    let e = find_from(s, blank(), p);
    if e < 0 {
        Err(RecipeFault::ExpectedImageHref)
    } else {
        Ok((s.subrange(skip_ws_in(s, skip, e), e), skip_ws(s, e)))
    }
}

/// The ingredient lines from position `p` up to a line that is empty, and the position of that line.
pub open spec fn ingredients_from(s: Seq<char>, p: int) -> Result<(Seq<IngredientModel>, int), RecipeFault>
    decreases s.len() - p,
{
    if 0 <= p < s.len() && s[p] == '\n' {
        Ok((Seq::empty(), p))
    } else {
        let e = find_from(s, seq!['\n'], p);
        if e < 0 || e < p || p < 0 || e >= s.len() {
            Err(RecipeFault::UnexpectedEndInIngredients)
        } else if e == p {
            Err(RecipeFault::ExpectedIngredient)
        } else {
            match ingredients_from(s, e + 1) {
                Ok((rest, q)) => Ok((seq![ingredient_model(s.subrange(p, e))] + rest, q)),
                Err(f) => Err(f),
            }
        }
    }
}

/// `x` split at each occurrence of `p`, from position `i` on.
pub open spec fn split_from(x: Seq<char>, p: Seq<char>, i: int) -> Seq<Seq<char>>
    decreases x.len() + 1 - i,
{
    let e = find_from(x, p, i);
    if e < 0 || e < i || p.len() == 0 || i < 0 || e + p.len() > x.len() {
        seq![x.subrange(i, x.len() as int)]
    } else {
        seq![x.subrange(i, e)] + split_from(x, p, e + p.len())
    }
}

/// The steps: the text after the steps marker at `p`, trimmed, split at blank lines.
pub open spec fn steps_at(s: Seq<char>, p: int) -> Seq<Seq<char>> {
    let a = skip_ws(s, p + 8);
    let b = rskip_ws_in(s, a, s.len() as int);
    split_from(s.subrange(a, b), blank(), 0)
}

/// The sections of a document up to the end of its ingredient list.
pub struct HeadModel {
    pub title: Seq<char>,
    pub image: Option<Seq<char>>,
    pub introduction: Option<Seq<char>>,
    pub ingredients: Seq<IngredientModel>,
    /// Where the ingredient list ends.
    pub end: int,
}

/// Reading the document `s` up to the end of its ingredient list: the title up
/// to the first blank line; an image where the next section opens with
/// `image:`; an introduction where the section after that does not open with
/// the ingredients marker; then the ingredients marker and the ingredient lines.
pub open spec fn head_outcome(s: Seq<char>) -> Result<HeadModel, RecipeFault> {
    let t = find_from(s, blank(), 0);
    if t < 0 {
        Err(RecipeFault::ExpectedTitle)
    } else {
        let after_title = skip_ws(s, t);
        let image = if occurs_at(s, image_marker(), after_title) {
            match section_at(s, after_title, after_title + 6) {
                Ok((h, q)) => Ok((Some(h), q)),
                Err(f) => Err(f),
            }
        } else {
            Ok((None, after_title))
        };
        match image {
            Err(f) => Err(f),
            Ok((image, after_image)) => {
                let intro = if !occurs_at(s, ingredients_marker(), after_image) {
                    match section_at(s, after_image, after_image) {
                        Ok((h, q)) => Ok((Some(h), q)),
                        Err(f) => Err(f),
                    }
                } else {
                    Ok((None, after_image))
                };
                match intro {
                    Err(f) => Err(f),
                    Ok((introduction, after_intro)) => {
                        if !occurs_at(s, ingredients_marker(), after_intro) {
                            Err(RecipeFault::ExpectedIngredientsStart)
                        } else {
                            match ingredients_from(s, skip_ws(s, after_intro + 14)) {
                                Err(f) => Err(f),
                                Ok((ingredients, list_end)) => Ok(
                                    HeadModel {
                                        title: s.subrange(0, t),
                                        image,
                                        introduction,
                                        ingredients,
                                        end: list_end,
                                    },
                                ),
                            }
                        }
                    },
                }
            },
        }
    }
}

/// What reading the document `s` gives: its head (see `head_outcome`), then
/// the steps after the steps marker. The first section that does not fit gives
/// the fault, and nothing else.
pub open spec fn recipe_outcome(s: Seq<char>) -> Result<RecipeModel, RecipeFault> {
    match head_outcome(s) {
        Err(f) => Err(f),
        Ok(h) => {
            let steps_pos = skip_ws(s, h.end);
            if !occurs_at(s, steps_marker(), steps_pos) {
                Err(RecipeFault::ExpectedStepsStart)
            } else {
                Ok(
                    RecipeModel {
                        title: h.title,
                        image: h.image,
                        introduction: h.introduction,
                        ingredients: h.ingredients,
                        steps: steps_at(s, steps_pos),
                    },
                )
            }
        },
    }
}

/// Model of a list of ingredients.
pub open spec fn ingredients_view(v: Seq<Ingredient>) -> Seq<IngredientModel> {
    v.map_values(|i: Ingredient| i@)
}

/// Model of a list of steps.
pub open spec fn steps_view(v: Seq<Step>) -> Seq<Seq<char>> {
    v.map_values(|s: Step| s.body@)
}

/// The section that starts at `p`, its text taken from `skip` on, where no blank
/// line can begin before `skip`.
fn read_section(s: &str, v: &Vec<char>, p: usize, skip: usize) -> (r: Result<(String, usize), RecipeError>)
    requires
        v@ == s@,
        p <= skip <= v@.len(),
        forall|k: int| p <= k < skip ==> !occurs_at(v@, blank(), k),
    ensures
        match section_at(v@, p as int, skip as int) {
            Ok((h, q)) => r is Ok && r->Ok_0.0@ == h && r->Ok_0.1 == q,
            Err(f) => r is Err && recipe_reports(r->Err_0, f),
        },
        r is Ok ==> r->Ok_0.1 <= v@.len(),
{
    let blank_line = vec!['\n', '\n'];
    assert(blank_line@ =~= blank());
    proof {
        lemma_find_from_skip(v@, blank(), p as int, skip as int);
        lemma_find_from_bounds(v@, blank(), skip as int);
    }
    match find_from_exec(v, &blank_line, p) {
        None => Err(RecipeError::ExpectedImageHref),
        Some(e) => {
            let hs = skip_ws_in_at(v, skip, e);
            Ok((slice_string(s, hs, e), skip_ws_at(v, e)))
        },
    }
}

/// Reads the ingredient lines from `p` up to an empty line.
fn read_ingredients(s: &str, v: &Vec<char>, p: usize) -> (r: Result<(Vec<Ingredient>, usize), RecipeError>)
    requires
        v@ == s@,
        p <= v@.len(),
    ensures
        match ingredients_from(v@, p as int) {
            Ok((xs, q)) => r is Ok && ingredients_view(r->Ok_0.0@) == xs && r->Ok_0.1 == q,
            Err(f) => r is Err && recipe_reports(r->Err_0, f),
        },
        r is Ok ==> r->Ok_0.1 <= v@.len(),
{
    let newline = vec!['\n'];
    assert(newline@ =~= seq!['\n']);
    let mut ings: Vec<Ingredient> = Vec::new();
    let mut i = p;
    loop
        invariant
            v@ == s@,
            newline@ == seq!['\n'],
            i <= v@.len(),
            ingredients_from(v@, p as int) == match ingredients_from(v@, i as int) {
                Ok((xs, q)) => Ok((ingredients_view(ings@) + xs, q)),
                Err(f) => Err(f),
            },
        decreases v@.len() + 1 - i,
    {
        if i < v.len() && v[i] == '\n' {
            assert(ingredients_view(ings@) + Seq::<IngredientModel>::empty() =~= ingredients_view(ings@));
            return Ok((ings, i));
        }
        proof {
            lemma_find_from_bounds(v@, seq!['\n'], i as int);
        }
        let e = match find_from_exec(v, &newline, i) {
            None => {
                return Err(RecipeError::UnexpectedEOF(String::from_str("Ingredient")));
            },
            Some(e) => e,
        };
        let line = s.substring_char(i, e);
        let ing = match Ingredient::parse(line) {
            Ok(x) => x,
            Err(x) => {
                return Err(x);
            },
        };
        let ghost before = ings@;
        ings.push(ing);
        proof {
            assert(ingredients_view(ings@) =~= ingredients_view(before).push(ing@));
            match ingredients_from(v@, e + 1) {
                Ok((xs, q)) => {
                    assert(ingredients_view(before) + (seq![ing@] + xs) =~= ingredients_view(ings@)
                        + xs);
                },
                Err(f) => {},
            }
        }
        i = e + 1;
    }
}

/// Splits `x` at each blank line.
fn read_steps(x: &str) -> (r: Vec<Step>)
    ensures
        steps_view(r@) == split_from(x@, blank(), 0),
{
    let body = chars_of(x);
    let blank_line = vec!['\n', '\n'];
    assert(blank_line@ =~= blank());
    let mut steps: Vec<Step> = Vec::new();
    let mut i: usize = 0;
    loop
        invariant
            body@ == x@,
            blank_line@ == blank(),
            i <= body@.len(),
            split_from(body@, blank(), 0) == steps_view(steps@) + split_from(body@, blank(), i as int),
        decreases body@.len() + 1 - i,
    {
        proof {
            lemma_find_from_bounds(body@, blank(), i as int);
        }
        let ghost before = steps@;
        match find_from_exec(&body, &blank_line, i) {
            None => {
                steps.push(Step { body: slice_string(x, i, body.len()) });
                assert(steps_view(steps@) =~= steps_view(before) + split_from(body@, blank(), i as int));
                return steps;
            },
            Some(e) => {
                steps.push(Step { body: slice_string(x, i, e) });
                proof {
                    let rest = split_from(body@, blank(), e + 2);
                    assert(steps_view(steps@) =~= steps_view(before).push(body@.subrange(i as int, e as int)));
                    assert(steps_view(before) + (seq![body@.subrange(i as int, e as int)] + rest)
                        =~= steps_view(steps@) + rest);
                }
                assert(e + 2 <= body@.len());
                assert(body@.len() == body.len());
                i = e + 2;
            },
        }
    }
}

impl Recipe {
    /// Reads a recipe document: title, optional image, optional introduction,
    /// ingredients and steps. Any fault leaves nothing but the error.
    pub fn parse(s: &str) -> (r: Result<Recipe, RecipeError>)
        ensures
            match recipe_outcome(s@) {
                Ok(m) => r is Ok && r->Ok_0@ == m,
                Err(f) => r is Err && recipe_reports(r->Err_0, f),
            },
    {
        let v = chars_of(s);
        assert(v@.len() == v.len());
        let blank_line = vec!['\n', '\n'];
        assert(blank_line@ =~= blank());
        proof {
            lemma_find_from_bounds(v@, blank(), 0);
        }
        let t = match find_from_exec(&v, &blank_line, 0) {
            None => {
                return Err(RecipeError::ExpectedTitle);
            },
            Some(t) => t,
        };
        let title = slice_string(s, 0, t);
        let after_title = skip_ws_at(&v, t);
        let image_mark = vec!['i', 'm', 'a', 'g', 'e', ':'];
        assert(image_mark@ =~= image_marker());
        let (image, after_image) = if occurs_at_exec(&v, &image_mark, after_title) {
            assert(after_title + 6 <= v.len());
            assert forall|k: int| after_title <= k < after_title + 6 implies !occurs_at(v@, blank(), k) by {
                assert(v@.subrange(after_title as int, after_title + 6)[k - after_title] == v@[k]);
                if occurs_at(v@, blank(), k) {
                    assert(v@.subrange(k, k + 2)[0] == v@[k]);
                }
            }
            match read_section(s, &v, after_title, after_title + 6) {
                Ok((h, q)) => (Some(Image { href: h }), q),
                Err(x) => {
                    return Err(x);
                },
            }
        } else {
            (None, after_title)
        };
        let ing_mark = vec!['-', '-', '-', 'i', 'n', 'g', 'r', 'e', 'd', 'i', 'e', 'n', 't', 's'];
        assert(ing_mark@ =~= ingredients_marker());
        let (introduction, after_intro) = if !occurs_at_exec(&v, &ing_mark, after_image) {
            match read_section(s, &v, after_image, after_image) {
                Ok((h, q)) => (Some(h), q),
                Err(x) => {
                    return Err(x);
                },
            }
        } else {
            (None, after_image)
        };
        if !occurs_at_exec(&v, &ing_mark, after_intro) {
            return Err(RecipeError::ExpectedIngredientsStart);
        }
        let p = skip_ws_at(&v, after_intro + 14);
        let (ingredients, list_end) = match read_ingredients(s, &v, p) {
            Ok(x) => x,
            Err(x) => {
                return Err(x);
            },
        };
        let steps_pos = skip_ws_at(&v, list_end);
        let steps_mark = vec!['-', '-', '-', 's', 't', 'e', 'p', 's'];
        assert(steps_mark@ =~= steps_marker());
        if !occurs_at_exec(&v, &steps_mark, steps_pos) {
            return Err(RecipeError::ExpectedStepsStart);
        }
        assert(steps_pos + 8 <= v.len());
        let a = skip_ws_at(&v, steps_pos + 8);
        let b = rskip_ws_in_at(&v, a, v.len());
        let steps = read_steps(s.substring_char(a, b));
        let r = Recipe { title, image, introduction, ingredients, steps };
        assert(r@.ingredients == ingredients_view(ingredients@));
        assert(r@.steps == steps_view(steps@));
        Ok(r)
    }
}

impl std::str::FromStr for Recipe {
    type Err = RecipeError;

    fn from_str(s: &str) -> (r: Result<Recipe, RecipeError>)
        ensures
            match recipe_outcome(s@) {
                Ok(m) => r is Ok && r->Ok_0@ == m,
                Err(f) => r is Err && recipe_reports(r->Err_0, f),
            },
    {
        Recipe::parse(s)
    }
}

/// A document in which the steps marker appears nowhere gives no recipe, only
/// an error: `ExpectedStepsStart` where everything up to the end of the
/// ingredient list reads, else the fault met before.
pub proof fn lemma_no_steps_no_recipe(s: Seq<char>)
    requires
        forall|k: int| !occurs_at(s, steps_marker(), k),
    ensures
        recipe_outcome(s) is Err,
        match head_outcome(s) {
            Ok(_) => recipe_outcome(s) == Err::<RecipeModel, RecipeFault>(RecipeFault::ExpectedStepsStart),
            Err(f) => recipe_outcome(s) == Err::<RecipeModel, RecipeFault>(f),
        },
{
}

/// The ingredient section text of `lines`: each line followed by a newline.
pub open spec fn lines_text(lines: Seq<Seq<char>>) -> Seq<char>
    decreases lines.len(),
{
    if lines.len() == 0 {
        Seq::empty()
    } else {
        lines[0] + seq!['\n'] + lines_text(lines.drop_first())
    }
}

/// Each of `lines` is non-empty and holds no newline.
pub open spec fn proper_lines(lines: Seq<Seq<char>>) -> bool {
    forall|i: int|
        0 <= i < lines.len() ==> #[trigger] lines[i].len() > 0 && forall|k: int|
            0 <= k < lines[i].len() ==> lines[i][k] != '\n'
}

/// With `q` the first place of `p` at or after `i`, the search from `i` finds `q`.
proof fn lemma_find_first(s: Seq<char>, p: Seq<char>, i: int, q: int)
    requires
        0 <= i <= q,
        occurs_at(s, p, q),
        forall|k: int| i <= k < q ==> !occurs_at(s, p, k),
    ensures
        find_from(s, p, i) == q,
    decreases q - i,
{
    if i < q {
        lemma_find_first(s, p, i + 1, q);
    }
}

/// Skipping whitespace in a suffix of `s` is skipping it in `s`, moved by where the suffix starts.
proof fn lemma_skip_ws_suffix(s: Seq<char>, base: int, i: int)
    requires
        0 <= base <= s.len(),
        0 <= i <= s.len() - base,
    ensures
        skip_ws(s, base + i) == base + skip_ws(s.subrange(base, s.len() as int), i),
    decreases s.len() - base - i,
{
    let r = s.subrange(base, s.len() as int);
    if i < r.len() {
        assert(r[i] == s[base + i]);
        lemma_skip_ws_suffix(s, base, i + 1);
    }
}

/// Proper ingredient lines at `p`, followed by an empty line, are read up to that empty line.
proof fn lemma_lines_read(s: Seq<char>, p: int, lines: Seq<Seq<char>>)
    requires
        0 <= p,
        proper_lines(lines),
        p + lines_text(lines).len() < s.len(),
        s.subrange(p, p + lines_text(lines).len()) == lines_text(lines),
        s[p + lines_text(lines).len()] == '\n',
    ensures
        ingredients_from(s, p) is Ok,
        ingredients_from(s, p)->Ok_0.1 == p + lines_text(lines).len(),
    decreases lines.len(),
{
    if lines.len() > 0 {
        let line = lines[0];
        let rest = lines.drop_first();
        let text = lines_text(lines);
        let e = p + line.len();
        assert(text == line + seq!['\n'] + lines_text(rest));
        assert(line.len() > 0);
        assert(s[p] == text[0]);
        assert(text[0] == line[0]);
        assert(s[e] == text[line.len() as int]);
        assert forall|k: int| p <= k < e implies !occurs_at(s, seq!['\n'], k) by {
            assert(s[k] == text[k - p]);
            assert(text[k - p] == line[k - p]);
            if occurs_at(s, seq!['\n'], k) {
                assert(s.subrange(k, k + 1)[0] == s[k]);
            }
        }
        assert(s.subrange(e, e + 1) =~= seq!['\n']);
        lemma_find_first(s, seq!['\n'], p, e);
        assert forall|i: int| 0 <= i < rest.len() implies #[trigger] rest[i].len() > 0 && forall|k: int|
            0 <= k < rest[i].len() ==> rest[i][k] != '\n' by {
            assert(rest[i] == lines[i + 1]);
        }
        let rt = lines_text(rest);
        assert(s.subrange(e + 1, e + 1 + rt.len()) =~= rt) by {
            assert forall|i: int| 0 <= i < rt.len() implies s.subrange(e + 1, e + 1 + rt.len())[i]
                == rt[i] by {
                assert(s[e + 1 + i] == text[line.len() + 1 + i]);
            }
        }
        lemma_lines_read(s, e + 1, rest);
    }
}

/// After a title with no blank line in it and a blank line, reading goes on
/// where the text after that blank line starts, if that text opens with no whitespace.
proof fn lemma_title_end(title: Seq<char>, tail: Seq<char>)
    requires
        forall|k: int| !occurs_at(title, blank(), k),
        tail.len() > 0,
        !is_ws(tail[0]),
    ensures
        find_from(title + blank() + tail, blank(), 0) >= 0,
        skip_ws(title + blank() + tail, find_from(title + blank() + tail, blank(), 0))
            == title.len() + 2,
{
    let s = title + blank() + tail;
    let n = title.len() as int;
    assert(s[n] == '\n' && s[n + 1] == '\n');
    assert(s[n + 2] == tail[0]);
    assert(s.subrange(n, n + 2) =~= blank());
    assert(skip_ws(s, n + 2) == n + 2);
    assert(skip_ws(s, n + 1) == n + 2);
    assert(skip_ws(s, n) == n + 2);
    if n > 0 && title[n - 1] == '\n' {
        assert(s.subrange(n - 1, n + 1) =~= blank());
        assert forall|k: int| 0 <= k < n - 1 implies !occurs_at(s, blank(), k) by {
            if occurs_at(s, blank(), k) {
                assert(title.subrange(k, k + 2) =~= s.subrange(k, k + 2));
                assert(occurs_at(title, blank(), k));
            }
        }
        lemma_find_first(s, blank(), 0, n - 1);
        assert(s[n - 1] == '\n');
        assert(skip_ws(s, n - 1) == n + 2);
    } else {
        assert forall|k: int| 0 <= k < n implies !occurs_at(s, blank(), k) by {
            if occurs_at(s, blank(), k) {
                if k + 2 <= n {
                    assert(title.subrange(k, k + 2) =~= s.subrange(k, k + 2));
                    assert(occurs_at(title, blank(), k));
                } else {
                    assert(s.subrange(k, k + 2)[0] == s[k]);
                    assert(s[k] == title[n - 1]);
                }
            }
        }
        lemma_find_first(s, blank(), 0, n);
    }
}

/// Where the title, the ingredients marker and the ingredient list read and no
/// steps marker follows, the document gives `ExpectedStepsStart`.
proof fn lemma_outcome_without_steps(s: Seq<char>, a0: int)
    requires
        find_from(s, blank(), 0) >= 0,
        skip_ws(s, find_from(s, blank(), 0)) == a0,
        !occurs_at(s, image_marker(), a0),
        occurs_at(s, ingredients_marker(), a0),
        ingredients_from(s, skip_ws(s, a0 + 14)) is Ok,
        !occurs_at(s, steps_marker(), skip_ws(s, ingredients_from(s, skip_ws(s, a0 + 14))->Ok_0.1)),
    ensures
        recipe_outcome(s) == Err::<RecipeModel, RecipeFault>(RecipeFault::ExpectedStepsStart),
{
}

proof fn lemma_skip_ws_moves_on(s: Seq<char>, i: int)
    requires
        0 <= i,
    ensures
        i <= skip_ws(s, i),
    decreases s.len() - i,
{
    if i < s.len() && is_ws(s[i]) {
        lemma_skip_ws_moves_on(s, i + 1);
    }
}

/// A marker that `s` holds where the whitespace after `base` ends opens the
/// suffix from `base` once its leading whitespace is trimmed.
proof fn lemma_marker_in_suffix(s: Seq<char>, base: int, m: Seq<char>)
    requires
        0 <= base <= s.len(),
        occurs_at(s, m, base + skip_ws(s.subrange(base, s.len() as int), 0)),
    ensures
        occurs_at(trim_start(s.subrange(base, s.len() as int)), m, 0),
{
    let rest = s.subrange(base, s.len() as int);
    let j = skip_ws(rest, 0);
    let q = base + j;
    lemma_skip_ws_moves_on(rest, 0);
    let tr = trim_start(rest);
    assert(tr == rest.subrange(j, rest.len() as int));
    assert(tr.subrange(0, m.len() as int) =~= s.subrange(q, q + m.len())) by {
        assert forall|i: int| 0 <= i < m.len() implies tr.subrange(0, m.len() as int)[i]
            == s.subrange(q, q + m.len())[i] by {
            assert(tr[i] == rest[j + i]);
            assert(rest[j + i] == s[base + j + i]);
        }
    }
}

/// The part of the law after the title: the ingredients marker at `a0`, the
/// lines, an empty line and `rest`, laid out in `s`.
#[verifier::rlimit(50)]
proof fn lemma_body_without_steps(s: Seq<char>, a0: int, lines: Seq<Seq<char>>, rest: Seq<char>)
    requires
        0 <= a0,
        find_from(s, blank(), 0) >= 0,
        skip_ws(s, find_from(s, blank(), 0)) == a0,
        lines.len() > 0,
        proper_lines(lines),
        !is_ws(lines[0][0]),
        !occurs_at(trim_start(rest), steps_marker(), 0),
        a0 + 15 + lines_text(lines).len() < s.len(),
        s.subrange(a0, a0 + 14) == ingredients_marker(),
        s[a0 + 14] == '\n',
        s.subrange(a0 + 15, a0 + 15 + lines_text(lines).len()) == lines_text(lines),
        s[a0 + 15 + lines_text(lines).len()] == '\n',
        s.subrange(a0 + 16 + lines_text(lines).len(), s.len() as int) == rest,
    ensures
        recipe_outcome(s) == Err::<RecipeModel, RecipeFault>(RecipeFault::ExpectedStepsStart),
{
    let lt = lines_text(lines);
    let start = a0 + 15;
    let end = start + lt.len();
    assert(!occurs_at(s, image_marker(), a0)) by {
        assert(s[a0] == s.subrange(a0, a0 + 14)[0]);
        assert(s.subrange(a0, a0 + 6)[0] == s[a0]);
    }
    assert(s[start] == lines[0][0]) by {
        assert(lt == lines[0] + seq!['\n'] + lines_text(lines.drop_first()));
        assert(s[start] == s.subrange(start, end)[0]);
        assert(lt[0] == lines[0][0]);
    }
    assert(is_ws(s[a0 + 14]));
    assert(skip_ws(s, start) == start);
    assert(skip_ws(s, a0 + 14) == skip_ws(s, start));
    lemma_lines_read(s, start, lines);
    let r0 = end + 1;
    assert(is_ws(s[end]));
    assert(skip_ws(s, end) == skip_ws(s, r0));
    lemma_skip_ws_suffix(s, r0, 0);
    let q = skip_ws(s, r0);
    if occurs_at(s, steps_marker(), q) {
        lemma_marker_in_suffix(s, r0, steps_marker());
    }
    lemma_outcome_without_steps(s, a0);
}

/// A document made of a title with no blank line in it, a blank line, the
/// ingredients marker on its own line, one or more proper ingredient lines (the
/// first not opening with whitespace), an empty line and then text that, leading
/// whitespace aside, does not open with the steps marker, gives
/// `ExpectedStepsStart`: no recipe, so no ingredient list either.
#[verifier::rlimit(100)]
pub proof fn lemma_steps_marker_required(title: Seq<char>, lines: Seq<Seq<char>>, rest: Seq<char>)
    requires
        forall|k: int| !occurs_at(title, blank(), k),
        lines.len() > 0,
        proper_lines(lines),
        !is_ws(lines[0][0]),
        !occurs_at(trim_start(rest), steps_marker(), 0),
    ensures
        recipe_outcome(title + blank() + ingredients_marker() + seq!['\n'] + lines_text(lines)
            + seq!['\n'] + rest) == Err::<RecipeModel, RecipeFault>(RecipeFault::ExpectedStepsStart),
{
    let lt = lines_text(lines);
    let s = title + blank() + ingredients_marker() + seq!['\n'] + lt + seq!['\n'] + rest;
    let n = title.len() as int;
    let a0 = n + 2;
    let start = a0 + 15;
    let end = start + lt.len();
    let tail = ingredients_marker() + seq!['\n'] + lt + seq!['\n'] + rest;
    assert(s =~= title + blank() + tail);
    assert(tail[0] == '-');
    lemma_title_end(title, tail);
    assert(s.subrange(a0, a0 + 14) =~= ingredients_marker());
    assert(s[a0 + 14] == '\n');
    assert(s.subrange(start, end) =~= lt);
    assert(s[end] == '\n');
    assert(s.subrange(end + 1, s.len() as int) =~= rest);
    lemma_body_without_steps(s, a0, lines, rest);
}

impl Recipe<Metric> {
    /// The same recipe, its quantities shown in imperial units.
    pub fn as_imperial(self) -> (r: Recipe<Imperial>)
        ensures
            r@ == self@,
    {
        let Recipe { title, image, introduction, ingredients, steps } = self;
        let ghost whole = ingredients@;
        let mut rest = ingredients;
        let mut out: Vec<Ingredient<Imperial>> = Vec::new();
        while rest.len() > 0
            invariant
                out@.map_values(|i: Ingredient<Imperial>| i@) + rest@.map_values(
                    |i: Ingredient<Metric>| i@,
                ) == whole.map_values(|i: Ingredient<Metric>| i@),
            decreases rest@.len(),
        {
            let ghost (o, rs) = (out@, rest@);
            let x = rest.remove(0);
            out.push(x.as_imperial());
            assert(out@.map_values(|i: Ingredient<Imperial>| i@) + rest@.map_values(
                |i: Ingredient<Metric>| i@,
            ) =~= o.map_values(|i: Ingredient<Imperial>| i@) + rs.map_values(
                |i: Ingredient<Metric>| i@,
            ));
        }
        assert(out@.map_values(|i: Ingredient<Imperial>| i@) =~= whole.map_values(
            |i: Ingredient<Metric>| i@,
        ));
        Recipe { title, image, introduction, ingredients: out, steps }
    }
}

impl Recipe<Imperial> {
    /// The same recipe, its quantities shown in metric units.
    pub fn as_metric(self) -> (r: Recipe<Metric>)
        ensures
            r@ == self@,
    {
        let Recipe { title, image, introduction, ingredients, steps } = self;
        let ghost whole = ingredients@;
        let mut rest = ingredients;
        let mut out: Vec<Ingredient<Metric>> = Vec::new();
        while rest.len() > 0
            invariant
                out@.map_values(|i: Ingredient<Metric>| i@) + rest@.map_values(
                    |i: Ingredient<Imperial>| i@,
                ) == whole.map_values(|i: Ingredient<Imperial>| i@),
            decreases rest@.len(),
        {
            let ghost (o, rs) = (out@, rest@);
            let x = rest.remove(0);
            out.push(x.as_metric());
            assert(out@.map_values(|i: Ingredient<Metric>| i@) + rest@.map_values(
                |i: Ingredient<Imperial>| i@,
            ) =~= o.map_values(|i: Ingredient<Metric>| i@) + rs.map_values(
                |i: Ingredient<Imperial>| i@,
            ));
        }
        assert(out@.map_values(|i: Ingredient<Metric>| i@) =~= whole.map_values(
            |i: Ingredient<Imperial>| i@,
        ));
        Recipe { title, image, introduction, ingredients: out, steps }
    }
}

/// How a quantity is shown in metric units.
pub open spec fn quantity_metric_text(q: QuantityModel) -> Seq<char> {
    match q {
        QuantityModel::Weight(w) => weight_metric_text(w),
        QuantityModel::Volume(v) => volume_metric_text(v),
    }
}

/// How a quantity is shown in imperial units.
pub open spec fn quantity_imperial_text(q: QuantityModel) -> Seq<char> {
    match q {
        QuantityModel::Weight(w) => weight_imperial_text(w),
        QuantityModel::Volume(v) => volume_imperial_text(v),
    }
}

/// An ingredient line as shown: the quantity, a space and the name, or the name alone.
pub open spec fn ingredient_text(m: IngredientModel, metric: bool) -> Seq<char> {
    match m.quantity {
        Some(q) => (if metric {
            quantity_metric_text(q)
        } else {
            quantity_imperial_text(q)
        }) + " "@ + m.ingredient,
        None => m.ingredient,
    }
}

impl IngredientQuantity<Metric> {
    /// The display text of this quantity.
    pub fn render(&self) -> (r: String)
        ensures
            r@ == quantity_metric_text(self@),
    {
        match self {
            IngredientQuantity::Weight(w) => w.render(),
            IngredientQuantity::Volume(v) => v.render(),
        }
    }
}

impl IngredientQuantity<Imperial> {
    /// The display text of this quantity.
    pub fn render(&self) -> (r: String)
        ensures
            r@ == quantity_imperial_text(self@),
    {
        match self {
            IngredientQuantity::Weight(w) => w.render(),
            IngredientQuantity::Volume(v) => v.render(),
        }
    }
}

impl Ingredient<Metric> {
    /// The display text of this ingredient.
    pub fn render(&self) -> (r: String)
        ensures
            r@ == ingredient_text(self@, true),
    {
        match &self.quantity {
            Some(q) => {
                let mut out = q.render();
                out.append(" ");
                out.append(self.ingredient.as_str());
                out
            },
            None => String::from_str(self.ingredient.as_str()),
        }
    }
}

impl Ingredient<Imperial> {
    /// The display text of this ingredient.
    pub fn render(&self) -> (r: String)
        ensures
            r@ == ingredient_text(self@, false),
    {
        match &self.quantity {
            Some(q) => {
                let mut out = q.render();
                out.append(" ");
                out.append(self.ingredient.as_str());
                out
            },
            None => String::from_str(self.ingredient.as_str()),
        }
    }
}

} // verus!
