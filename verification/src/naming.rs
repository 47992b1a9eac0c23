use vstd::prelude::*;

verus! {

/// The lower-case form of a text, as `str::to_lowercase` gives it.
pub uninterp spec fn lowercase_of(text: Seq<char>) -> Seq<char>;

/// Puts `text` in lower case with `str::to_lowercase` of the standard
/// library, which follows the Unicode rules for each character.
#[verifier::external_body]
fn to_lowercase(text: &str) -> (lowered: String)
    ensures
        lowered@ == lowercase_of(text@),
{
    text.to_lowercase()
}

/// Whether `lowered` is one of the extensions of the files that are taken as
/// images: `jpg`, `jpeg`, `png`, `bmp`, `gif`, `tiff`, `heic` and `mov`.
pub open spec fn is_known_extension(lowered: Seq<char>) -> bool {
    ||| lowered == "jpg"@
    ||| lowered == "jpeg"@
    ||| lowered == "png"@
    ||| lowered == "bmp"@
    ||| lowered == "gif"@
    ||| lowered == "tiff"@
    ||| lowered == "heic"@
    ||| lowered == "mov"@
}

/// Whether two texts are the same.
pub fn same_text(a: &str, b: &str) -> (same: bool)
    ensures
        same == (a@ == b@),
{
    let n: usize = a.unicode_len();
    if n != b.unicode_len() {
        return false;
    }
    let mut i: usize = 0;
    while i < n
        invariant
            i <= n,
            n == a@.len(),
            n == b@.len(),
            forall|j: int| 0 <= j < i ==> a@[j] == b@[j],
        decreases n - i,
    {
        if a.get_char(i) != b.get_char(i) {
            return false;
        }
        i += 1;
    }
    assert(a@ =~= b@);
    true
}

/// Whether an extension that is already in lower case is that of an image.
pub fn is_lowercase_image_extension(lowered: &str) -> (known: bool)
    ensures
        known == is_known_extension(lowered@),
{
    same_text(lowered, "jpg") || same_text(lowered, "jpeg") || same_text(lowered, "png")
        || same_text(lowered, "bmp") || same_text(lowered, "gif") || same_text(lowered, "tiff")
        || same_text(lowered, "heic") || same_text(lowered, "mov")
}

/// Whether a file with this extension is taken as an image, in whatever case
/// the extension is written.
pub fn is_image_extension(extension: &str) -> (known: bool)
    ensures
        known == is_known_extension(lowercase_of(extension@)),
{
    let lowered = to_lowercase(extension);
    is_lowercase_image_extension(lowered.as_str())
}

/// What the name of a model file begins with.
pub open spec fn model_prefix() -> Seq<char> {
    "rbfn_model_weights_"@
}

/// What the name of a model file ends with.
pub open spec fn model_suffix() -> Seq<char> {
    ".txt"@
}

/// Whether `name` is the name of a model file: the prefix, a category, and the
/// suffix.
pub open spec fn is_model_name(name: Seq<char>) -> bool {
    &&& name.len() >= model_prefix().len() + model_suffix().len()
    &&& name.subrange(0, model_prefix().len() as int) == model_prefix()
    &&& name.subrange(name.len() - model_suffix().len(), name.len() as int) == model_suffix()
}

/// The category that a model file is named after.
pub open spec fn category_in(name: Seq<char>) -> Seq<char> {
    name.subrange(model_prefix().len() as int, name.len() - model_suffix().len())
}

/// The category that a model file is named after, where `name` is the name of
/// a model file.
pub fn category_of_model_name(name: &str) -> (category: Option<String>)
    ensures
        category.is_some() == is_model_name(name@),
        category.is_some() ==> category.unwrap()@ == category_in(name@),
{
    proof {
        reveal_strlit("rbfn_model_weights_");
        reveal_strlit(".txt");
    }
    let n: usize = name.unicode_len();
    if n < 23 {
        return None;
    }
    let head = name.substring_char(0, 19);
    let tail = name.substring_char(n - 4, n);
    if same_text(head, "rbfn_model_weights_") && same_text(tail, ".txt") {
        let middle = name.substring_char(19, n - 4);
        Some(middle.to_owned())
    } else {
        None
    }
}

/// Whether the model at place `k` is in the running: its file is named as a
/// model file, and its score is above the least score there is.
pub open spec fn in_running(models: Seq<(String, i64)>, k: int) -> bool {
    0 <= k < models.len() && is_model_name(models[k].0@) && models[k].1 > i64::MIN
}

/// Whether the model at place `k` wins: it is in the running, no model in the
/// running scores higher, and none before it scores as high.
pub open spec fn wins(models: Seq<(String, i64)>, k: int) -> bool {
    &&& in_running(models, k)
    &&& forall|j: int| #[trigger] in_running(models, j) ==> models[j].1 <= models[k].1
    &&& forall|j: int| #[trigger] in_running(models, j) && j < k ==> models[j].1 < models[k].1
}

/// The category of the model that scores an image highest.
///
/// Each model is given by the name of its file and by its score for the image,
/// as an integer that grows with the score; the least integer stands for a
/// score that is no number or lies below every number. The answer is the
/// category of the winning model, and `Inconnu` where no model is in the
/// running.
pub fn predict_category_for_image(models: &Vec<(String, i64)>) -> (category: String)
    ensures
        forall|k: int| wins(models@, k) ==> category@ == category_in(models@[k].0@),
        (exists|k: int| in_running(models@, k)) ==> (exists|k: int| wins(models@, k)),
        (forall|k: int| !in_running(models@, k)) ==> category@ == "Inconnu"@,
{
    let mut best_category: String = "Inconnu".to_owned();
    let mut best_score: i64 = i64::MIN;
    let ghost mut best: int = -1;
    let mut i: usize = 0;
    while i < models.len()
        invariant
            i <= models@.len(),
            -1 <= best < i,
            best == -1 ==> best_score == i64::MIN && best_category@ == "Inconnu"@,
            best == -1 ==> forall|j: int| 0 <= j < i ==> !in_running(models@, j),
            best >= 0 ==> in_running(models@, best) && best_score == models@[best].1
                && best_category@ == category_in(models@[best].0@),
            best >= 0 ==> forall|j: int|
                0 <= j < i && #[trigger] in_running(models@, j) ==> models@[j].1 <= best_score,
            best >= 0 ==> forall|j: int|
                0 <= j < best && #[trigger] in_running(models@, j) ==> models@[j].1 < best_score,
        decreases models@.len() - i,
    {
        match category_of_model_name(models[i].0.as_str()) {
            Some(category) => {
                if models[i].1 > best_score {
                    best_score = models[i].1;
                    best_category = category;
                    proof {
                        best = i as int;
                    }
                }
            },
            None => {},
        }
        i += 1;
    }
    proof {
        if best >= 0 {
            assert(wins(models@, best));
            assert forall|k: int| wins(models@, k) implies best_category@ == category_in(
                models@[k].0@,
            ) by {
                if k < best {
                    assert(in_running(models@, k));
                } else if best < k {
                    assert(in_running(models@, best));
                }
            }
        }
    }
    best_category
}

/// The name of the file that holds the model of `category`.
pub fn model_file_name(category: &str) -> (name: String)
    ensures
        name@ == model_prefix() + category@ + model_suffix(),
{
    let mut name: String = "rbfn_model_weights_".to_owned();
    name.append(category);
    name.append(".txt");
    name
}

/// The file of a model is named after its category: from the name of the
/// file the category comes back.
pub proof fn lemma_model_name_round_trip(category: Seq<char>)
    ensures
        is_model_name(model_prefix() + category + model_suffix()),
        category_in(model_prefix() + category + model_suffix()) == category,
{
    let name = model_prefix() + category + model_suffix();
    let p = model_prefix().len() as int;
    let q = model_suffix().len() as int;
    assert(name.len() == p + category.len() + q);
    assert(name.subrange(0, p) =~= model_prefix());
    assert(name.subrange(name.len() - q, name.len() as int) =~= model_suffix());
    assert(name.subrange(p, name.len() - q) =~= category);
}

/// The place of a category among `Tomato`, `Orange` and `Aubergine`, and the
/// first place for any other text.
pub fn category_index(category: &str) -> (index: usize)
    ensures
        index == (if category@ == "Orange"@ {
            1usize
        } else if category@ == "Aubergine"@ {
            2usize
        } else {
            0usize
        }),
{
    if same_text(category, "Orange") {
        1
    } else if same_text(category, "Aubergine") {
        2
    } else {
        0
    }
}

/// The classes of images.
#[derive(Clone, Copy, Debug, PartialEq, Eq, Structural)]
pub enum ImageClass {
    Avocado,
    Tomato,
    Banana,
}

impl ImageClass {
    /// The class at a place among the outputs of a classifier; the first
    /// class for a place that has none.
    pub open spec fn at_index(index: int) -> ImageClass {
        if index == 1 {
            ImageClass::Tomato
        } else if index == 2 {
            ImageClass::Banana
        } else {
            ImageClass::Avocado
        }
    }

    /// The place of the class among the outputs of a classifier.
    pub open spec fn spec_index(self) -> int {
        match self {
            ImageClass::Avocado => 0,
            ImageClass::Tomato => 1,
            ImageClass::Banana => 2,
        }
    }

    /// The class at a place among the outputs of a classifier; the first
    /// class for a place that has none.
    pub fn from_index(index: usize) -> (class: ImageClass)
        ensures
            class == ImageClass::at_index(index as int),
    {
        if index == 1 {
            ImageClass::Tomato
        } else if index == 2 {
            ImageClass::Banana
        } else {
            ImageClass::Avocado
        }
    }

    /// The place of the class among the outputs of a classifier.
    pub fn index(self) -> (index: usize)
        ensures
            index == self.spec_index(),
    {
        match self {
            ImageClass::Avocado => 0,
            ImageClass::Tomato => 1,
            ImageClass::Banana => 2,
        }
    }

    /// The class of the images in a directory of this name; the first class
    /// for a directory that is named after none.
    pub fn from_directory(name: &str) -> (class: ImageClass)
        ensures
            class == (if name@ == "Tomato"@ {
                ImageClass::Tomato
            } else if name@ == "Banana"@ {
                ImageClass::Banana
            } else {
                ImageClass::Avocado
            }),
    {
        if same_text(name, "Tomato") {
            ImageClass::Tomato
        } else if same_text(name, "Banana") {
            ImageClass::Banana
        } else {
            ImageClass::Avocado
        }
    }
}

/// A class comes back from its place: the place of a class names that class.
pub proof fn lemma_class_index_round_trip(class: ImageClass)
    ensures
        ImageClass::at_index(class.spec_index()) == class,
        0 <= class.spec_index() < 3,
{
}

} // verus!
