use vstd::prelude::*;

use crate::number::{decimal_text, push_decimal};

verus! {

/// The report section on methods and their mathematical models.
pub open spec fn method_section_text() -> Seq<char> {
    "## 方法与数学建模\n\n"@
        + "### 统一评分空间\n\n"@
        + r#"所有推荐器最终输出归一化得分 `s_ui in [0, 1]`，再映射回 1 到 5 星评分：

$$
s_{ui} = \frac{\hat r_{ui} - 1}{4}
$$

$$
\hat r_{ui} = 1 + 4s_{ui}
$$

统一评分空间的作用是让内容相似度、规则得分、协同过滤预测值、热门度分数和矩阵分解预测值可以被同一个混合模型加权融合。

"#@
        + "![图 2 评分归一化与相似度工具函数](reports/code_screenshots/code_page3_1.png)\n\n"@
        + "### 基于内容的推荐\n\n"@
        + r#"电影 `i` 被表示为稀疏内容向量 `x_i`。当前实现使用三类特征：电影类型、标题 token 和发行年代，其中类型权重为 2.0，标题 token 权重为 0.5，年代权重为 0.6。用户画像只由高评分电影构成：

$$
I_u^+ = \{ i \mid r_{ui} \geq 4 \}
$$

$$
p_u = \sum_{i \in I_u^+} \operatorname{norm}(r_{ui}) x_i
$$

$$
\operatorname{score}(u,i) = \cos(p_u, x_i)
$$

这里 `norm(r_ui)` 是评分归一化后的权重。该方法可解释性强，能说明“推荐原因来自类型、标题关键词或年代相似”，但它依赖元数据质量。由于 MovieLens 100K 的内容字段较少，基于内容的方法更适合作为冷启动和解释信号，而不是唯一主模型。

"#@
        + "### 基于知识的推荐\n\n"@
        + r#"基于知识的推荐器从用户历史中抽取偏好类型、排斥类型和偏好年份范围。其得分是一个可解释的规则模型：

$$
\operatorname{score}(u,i)
= 0.50 + g^+_{ui} - g^-_{ui} + y_{ui}
$$

其中喜欢类型来自 `r_ui >= 4` 的历史电影，排斥类型来自 `r_ui <= 2` 的历史电影。规则模型的优点是透明、容易解释，缺点是表达能力弱，无法自动学习复杂的交互关系。

"#@
        + "### 搜索模块\n\n"@
        + r#"搜索模块支持标题关键词、类型和起始年份过滤。候选电影先经过结构化条件筛选，再按标题 token 命中分和轻量热门度分进行排序：

$$
\operatorname{SearchScore}(i,q)
= 2 \cdot \operatorname{match}(i,q) + 0.01 \cdot n_i
$$

这个模块能满足课程作业中的基础检索需求，也能和推荐模块形成互补：搜索强调用户显式输入的即时意图，推荐强调历史行为推断出的长期偏好。当前搜索仍是轻量实现，没有倒排索引、TF-IDF/BM25 和拼写纠错，因此报告中把它定位为“可运行的检索入口”，而不是完整搜索引擎。

"#@
        + "![图 3 搜索模块过滤与排序实现](reports/code_screenshots/code_page4_1.png)\n\n"@
        + "### 协同过滤\n\n"@
        + r#"用户协同过滤先在共同评分电影上计算 Pearson 相似度，并加入收缩因子抑制共同评分数过少导致的偶然高相似度：

$$
\operatorname{sim}(u,v)
= \max(0,\operatorname{Pearson}(u,v)) \cdot \frac{|C_{uv}|}{|C_{uv}| + 10}
$$

$$
\hat r_{ui}
= \bar r_u + c \cdot
\frac{\sum_v \operatorname{sim}(u,v)(r_{vi}-\bar r_v)}
{\sum_v |\operatorname{sim}(u,v)|}
$$

物品协同过滤在共同评分用户上计算电影之间的相似度，形式类似：

$$
\operatorname{sim}(i,j)
= \max(0,\operatorname{Pearson}(i,j)) \cdot \frac{|U_{ij}|}{|U_{ij}| + 15}
$$

$$
\hat r_{ui}
= \bar r_i + c \cdot
\frac{\sum_j \operatorname{sim}(i,j)(r_{uj}-\bar r_j)}
{\sum_j |\operatorname{sim}(i,j)|}
$$

其中 `c` 是由邻居数量和相似度强度得到的置信度。协同过滤能捕捉群体行为模式，但对稀疏用户、稀疏物品和冷启动项目较敏感。

"#@
        + "![图 4 用户协同过滤相似度计算实现](reports/code_screenshots/code_page5_1.png)\n\n"@
        + "### 热门度基线\n\n"@
        + r#"热门度推荐器使用贝叶斯平滑后的电影平均评分，避免少量评分电影因为偶然高分被过度推荐：

$$
\hat r_i = \frac{n_i \bar r_i + m\mu}{n_i + m}, \quad m = 5
$$

其中 `n_i` 是电影评分数，`mean_i` 是电影平均评分，`mu` 是全局平均评分。热门度缺少个性化，但它是非常重要的基线：如果复杂模型不能明显超过热门度，就说明个性化信号并没有被有效利用。

"#@
        + "### 矩阵分解\n\n"@
        + r#"矩阵分解将用户和电影映射到低维潜在空间，当前实现使用带偏置项的显式反馈模型：

$$
\hat r_{ui} = \mu + b_u + b_i + p_u^\top q_i
$$

训练目标可以写成：

$$
\min \sum_{(u,i)\in R_{\mathrm{train}}}(r_{ui}-\hat r_{ui})^2
+ \lambda\left(\|p_u\|^2+\|q_i\|^2+b_u^2+b_i^2\right)
$$

本系统使用 SGD 训练，参数为 24 个隐因子、20 轮迭代、学习率 0.01、正则化系数 0.05。矩阵分解通常适合作为评分预测主模型，因为它既能学习用户偏好，也能学习电影之间的隐含关系。

"#@
        + "### 动态混合推荐\n\n"@
        + r#"混合模型把各推荐器的归一化得分做加权融合：

$$
S(u,i)=\sum_m w_m(u,i)s_m(u,i)
$$

$$
w_m(u,i)
= \frac{\alpha_m q_m(u,i)a_m(u,i)}
{\sum_k \alpha_k q_k(u,i)a_k(u,i)}
$$

其中 `alpha_m` 是基础权重，`q_m` 是模块置信度，`a_m` 是由用户历史长度、物品评分数量等因素决定的动态调整项。直观上，历史较少的用户会提高内容和知识规则的相对权重；历史较充分且物品评分较多时，矩阵分解和协同过滤权重更高。这比固定平均融合更合理，因为不同用户和不同电影的可用证据强度并不相同。

"#@
}

/// Appends the section on methods and their mathematical models to a report.
pub fn push_method_section(out: &mut String)
    ensures
        final(out)@ == old(out)@ + method_section_text(),
{
    let ghost start = out@;
    crate::text::push_str(out, "## 方法与数学建模\n\n");
    crate::text::push_str(out, "### 统一评分空间\n\n");
    crate::text::push_str(out, r#"所有推荐器最终输出归一化得分 `s_ui in [0, 1]`，再映射回 1 到 5 星评分：

$$
s_{ui} = \frac{\hat r_{ui} - 1}{4}
$$

$$
\hat r_{ui} = 1 + 4s_{ui}
$$

统一评分空间的作用是让内容相似度、规则得分、协同过滤预测值、热门度分数和矩阵分解预测值可以被同一个混合模型加权融合。

"#);
    crate::text::push_str(out, "![图 2 评分归一化与相似度工具函数](reports/code_screenshots/code_page3_1.png)\n\n");
    crate::text::push_str(out, "### 基于内容的推荐\n\n");
    crate::text::push_str(out, r#"电影 `i` 被表示为稀疏内容向量 `x_i`。当前实现使用三类特征：电影类型、标题 token 和发行年代，其中类型权重为 2.0，标题 token 权重为 0.5，年代权重为 0.6。用户画像只由高评分电影构成：

$$
I_u^+ = \{ i \mid r_{ui} \geq 4 \}
$$

$$
p_u = \sum_{i \in I_u^+} \operatorname{norm}(r_{ui}) x_i
$$

$$
\operatorname{score}(u,i) = \cos(p_u, x_i)
$$

这里 `norm(r_ui)` 是评分归一化后的权重。该方法可解释性强，能说明“推荐原因来自类型、标题关键词或年代相似”，但它依赖元数据质量。由于 MovieLens 100K 的内容字段较少，基于内容的方法更适合作为冷启动和解释信号，而不是唯一主模型。

"#);
    crate::text::push_str(out, "### 基于知识的推荐\n\n");
    crate::text::push_str(out, r#"基于知识的推荐器从用户历史中抽取偏好类型、排斥类型和偏好年份范围。其得分是一个可解释的规则模型：

$$
\operatorname{score}(u,i)
= 0.50 + g^+_{ui} - g^-_{ui} + y_{ui}
$$

其中喜欢类型来自 `r_ui >= 4` 的历史电影，排斥类型来自 `r_ui <= 2` 的历史电影。规则模型的优点是透明、容易解释，缺点是表达能力弱，无法自动学习复杂的交互关系。

"#);
    crate::text::push_str(out, "### 搜索模块\n\n");
    crate::text::push_str(out, r#"搜索模块支持标题关键词、类型和起始年份过滤。候选电影先经过结构化条件筛选，再按标题 token 命中分和轻量热门度分进行排序：

$$
\operatorname{SearchScore}(i,q)
= 2 \cdot \operatorname{match}(i,q) + 0.01 \cdot n_i
$$

这个模块能满足课程作业中的基础检索需求，也能和推荐模块形成互补：搜索强调用户显式输入的即时意图，推荐强调历史行为推断出的长期偏好。当前搜索仍是轻量实现，没有倒排索引、TF-IDF/BM25 和拼写纠错，因此报告中把它定位为“可运行的检索入口”，而不是完整搜索引擎。

"#);
    crate::text::push_str(out, "![图 3 搜索模块过滤与排序实现](reports/code_screenshots/code_page4_1.png)\n\n");
    crate::text::push_str(out, "### 协同过滤\n\n");
    crate::text::push_str(out, r#"用户协同过滤先在共同评分电影上计算 Pearson 相似度，并加入收缩因子抑制共同评分数过少导致的偶然高相似度：

$$
\operatorname{sim}(u,v)
= \max(0,\operatorname{Pearson}(u,v)) \cdot \frac{|C_{uv}|}{|C_{uv}| + 10}
$$

$$
\hat r_{ui}
= \bar r_u + c \cdot
\frac{\sum_v \operatorname{sim}(u,v)(r_{vi}-\bar r_v)}
{\sum_v |\operatorname{sim}(u,v)|}
$$

物品协同过滤在共同评分用户上计算电影之间的相似度，形式类似：

$$
\operatorname{sim}(i,j)
= \max(0,\operatorname{Pearson}(i,j)) \cdot \frac{|U_{ij}|}{|U_{ij}| + 15}
$$

$$
\hat r_{ui}
= \bar r_i + c \cdot
\frac{\sum_j \operatorname{sim}(i,j)(r_{uj}-\bar r_j)}
{\sum_j |\operatorname{sim}(i,j)|}
$$

其中 `c` 是由邻居数量和相似度强度得到的置信度。协同过滤能捕捉群体行为模式，但对稀疏用户、稀疏物品和冷启动项目较敏感。

"#);
    crate::text::push_str(out, "![图 4 用户协同过滤相似度计算实现](reports/code_screenshots/code_page5_1.png)\n\n");
    crate::text::push_str(out, "### 热门度基线\n\n");
    crate::text::push_str(out, r#"热门度推荐器使用贝叶斯平滑后的电影平均评分，避免少量评分电影因为偶然高分被过度推荐：

$$
\hat r_i = \frac{n_i \bar r_i + m\mu}{n_i + m}, \quad m = 5
$$

其中 `n_i` 是电影评分数，`mean_i` 是电影平均评分，`mu` 是全局平均评分。热门度缺少个性化，但它是非常重要的基线：如果复杂模型不能明显超过热门度，就说明个性化信号并没有被有效利用。

"#);
    crate::text::push_str(out, "### 矩阵分解\n\n");
    crate::text::push_str(out, r#"矩阵分解将用户和电影映射到低维潜在空间，当前实现使用带偏置项的显式反馈模型：

$$
\hat r_{ui} = \mu + b_u + b_i + p_u^\top q_i
$$

训练目标可以写成：

$$
\min \sum_{(u,i)\in R_{\mathrm{train}}}(r_{ui}-\hat r_{ui})^2
+ \lambda\left(\|p_u\|^2+\|q_i\|^2+b_u^2+b_i^2\right)
$$

本系统使用 SGD 训练，参数为 24 个隐因子、20 轮迭代、学习率 0.01、正则化系数 0.05。矩阵分解通常适合作为评分预测主模型，因为它既能学习用户偏好，也能学习电影之间的隐含关系。

"#);
    crate::text::push_str(out, "### 动态混合推荐\n\n");
    crate::text::push_str(out, r#"混合模型把各推荐器的归一化得分做加权融合：

$$
S(u,i)=\sum_m w_m(u,i)s_m(u,i)
$$

$$
w_m(u,i)
= \frac{\alpha_m q_m(u,i)a_m(u,i)}
{\sum_k \alpha_k q_k(u,i)a_k(u,i)}
$$

其中 `alpha_m` 是基础权重，`q_m` 是模块置信度，`a_m` 是由用户历史长度、物品评分数量等因素决定的动态调整项。直观上，历史较少的用户会提高内容和知识规则的相对权重；历史较充分且物品评分较多时，矩阵分解和协同过滤权重更高。这比固定平均融合更合理，因为不同用户和不同电影的可用证据强度并不相同。

"#);
    assert(out@ =~= start + method_section_text());
}

/// The report section defining the evaluation metrics, for top-`top_n` lists.
pub open spec fn metric_section_text(top_n: usize) -> Seq<char> {
    "## 评价指标定义\n\n"@
        + r#"### 评分预测指标

对测试集中的评分样本 `(u, i, r_ui)`，模型给出预测 `hat r_ui`。本报告使用：

$$
\mathrm{MAE}
= \frac{1}{|T|}\sum_{(u,i)\in T}|\hat r_{ui}-r_{ui}|
$$

$$
\mathrm{RMSE}
= \sqrt{\frac{1}{|T|}\sum_{(u,i)\in T}(\hat r_{ui}-r_{ui})^2}
$$

MAE 衡量平均绝对误差，RMSE 对大误差更敏感。二分类准确率把真实评分和预测评分都按 4 星阈值转成“喜欢/不喜欢”：

$$
\mathrm{Accuracy}
= \frac{\#\{\operatorname{sign}(\hat r_{ui}\geq 4)=\operatorname{sign}(r_{ui}\geq 4)\}}
{\#\{\mathrm{valid\ predictions}\}}
$$

预测覆盖率表示模型能对多少测试评分给出有效预测。对于只覆盖部分用户或物品的算法，只看 MAE/RMSE 可能会高估模型，因此报告同时列出覆盖率和有效预测数。

"#@
        + "### Top-"@
        + decimal_text(top_n as nat)
        + " 排序指标\n\n"@
        + r#"对每个测试用户 `u`，令真实相关集合为：

$$
\operatorname{Rel}_u
= \{ i \mid r_{ui}\geq 4,\ (u,i)\in T \}
$$

"#@
        + "推荐列表前 `"@
        + decimal_text(top_n as nat)
        + "` 个结果记为 `L_u@"@
        + decimal_text(top_n as nat)
        + "`。本报告使用：\n\n"@
        + r#"$$
\mathrm{Precision}_N
= \frac{|L_u^{(N)} \cap \operatorname{Rel}_u|}{N}
$$

$$
\mathrm{Recall}_N
= \frac{|L_u^{(N)} \cap \operatorname{Rel}_u|}{|\operatorname{Rel}_u|}
$$

$$
\mathrm{F1}_N
= \frac{2\cdot \mathrm{Precision}_N\cdot \mathrm{Recall}_N}
{\mathrm{Precision}_N+\mathrm{Recall}_N}
$$

$$
\mathrm{HitRate}_N
= \mathbf{1}\left(|L_u^{(N)} \cap \operatorname{Rel}_u| > 0\right)
$$

$$
\mathrm{DCG}_N
= \sum_{k=1}^{N}\frac{\operatorname{rel}_k}{\log_2(k+1)}
$$

$$
\mathrm{nDCG}_N
= \frac{\mathrm{DCG}_N}{\mathrm{IDCG}_N}
$$


最终结果对所有存在相关测试项目的用户做宏平均。需要注意的是，MovieLens 的未评分电影不能直接视为用户不喜欢，因此 Top-N 指标通常绝对数值不高，更适合用于算法之间的相对比较。

"#@
        + r#"### 覆盖率、多样性和流行度

目录覆盖率衡量所有推荐列表触达了多少不同电影：

$$
\mathrm{CatalogCoverage}
= \frac{|\bigcup_u L_u^{(N)}|}{|I|}
$$

平均推荐流行度是推荐电影在训练集中被评分次数的平均值，数值越高说明越偏向热门电影。类型多样性使用推荐列表中不同类型数与类型出现总次数的比值：

$$
\mathrm{GenreDiversity}_N
= \frac{\operatorname{unique\_genres}(L_u^{(N)})}
{\operatorname{genre\_slots}(L_u^{(N)})}
$$

这些指标不直接等价于准确率，但可以解释系统是否过度集中在少数热门电影上，以及推荐结果是否具有一定探索性。

"#@
}

/// Appends the section defining the evaluation metrics to a report.
pub fn push_metric_section(out: &mut String, top_n: usize)
    ensures
        final(out)@ == old(out)@ + metric_section_text(top_n),
{
    let ghost start = out@;
    crate::text::push_str(out, "## 评价指标定义\n\n");
    crate::text::push_str(out, r#"### 评分预测指标

对测试集中的评分样本 `(u, i, r_ui)`，模型给出预测 `hat r_ui`。本报告使用：

$$
\mathrm{MAE}
= \frac{1}{|T|}\sum_{(u,i)\in T}|\hat r_{ui}-r_{ui}|
$$

$$
\mathrm{RMSE}
= \sqrt{\frac{1}{|T|}\sum_{(u,i)\in T}(\hat r_{ui}-r_{ui})^2}
$$

MAE 衡量平均绝对误差，RMSE 对大误差更敏感。二分类准确率把真实评分和预测评分都按 4 星阈值转成“喜欢/不喜欢”：

$$
\mathrm{Accuracy}
= \frac{\#\{\operatorname{sign}(\hat r_{ui}\geq 4)=\operatorname{sign}(r_{ui}\geq 4)\}}
{\#\{\mathrm{valid\ predictions}\}}
$$

预测覆盖率表示模型能对多少测试评分给出有效预测。对于只覆盖部分用户或物品的算法，只看 MAE/RMSE 可能会高估模型，因此报告同时列出覆盖率和有效预测数。

"#);
    crate::text::push_str(out, "### Top-");
    push_decimal(out, top_n as u64);
    crate::text::push_str(out, " 排序指标\n\n");
    crate::text::push_str(out, r#"对每个测试用户 `u`，令真实相关集合为：

$$
\operatorname{Rel}_u
= \{ i \mid r_{ui}\geq 4,\ (u,i)\in T \}
$$

"#);
    crate::text::push_str(out, "推荐列表前 `");
    push_decimal(out, top_n as u64);
    crate::text::push_str(out, "` 个结果记为 `L_u@");
    push_decimal(out, top_n as u64);
    crate::text::push_str(out, "`。本报告使用：\n\n");
    crate::text::push_str(out, r#"$$
\mathrm{Precision}_N
= \frac{|L_u^{(N)} \cap \operatorname{Rel}_u|}{N}
$$

$$
\mathrm{Recall}_N
= \frac{|L_u^{(N)} \cap \operatorname{Rel}_u|}{|\operatorname{Rel}_u|}
$$

$$
\mathrm{F1}_N
= \frac{2\cdot \mathrm{Precision}_N\cdot \mathrm{Recall}_N}
{\mathrm{Precision}_N+\mathrm{Recall}_N}
$$

$$
\mathrm{HitRate}_N
= \mathbf{1}\left(|L_u^{(N)} \cap \operatorname{Rel}_u| > 0\right)
$$

$$
\mathrm{DCG}_N
= \sum_{k=1}^{N}\frac{\operatorname{rel}_k}{\log_2(k+1)}
$$

$$
\mathrm{nDCG}_N
= \frac{\mathrm{DCG}_N}{\mathrm{IDCG}_N}
$$


最终结果对所有存在相关测试项目的用户做宏平均。需要注意的是，MovieLens 的未评分电影不能直接视为用户不喜欢，因此 Top-N 指标通常绝对数值不高，更适合用于算法之间的相对比较。

"#);
    crate::text::push_str(out, r#"### 覆盖率、多样性和流行度

目录覆盖率衡量所有推荐列表触达了多少不同电影：

$$
\mathrm{CatalogCoverage}
= \frac{|\bigcup_u L_u^{(N)}|}{|I|}
$$

平均推荐流行度是推荐电影在训练集中被评分次数的平均值，数值越高说明越偏向热门电影。类型多样性使用推荐列表中不同类型数与类型出现总次数的比值：

$$
\mathrm{GenreDiversity}_N
= \frac{\operatorname{unique\_genres}(L_u^{(N)})}
{\operatorname{genre\_slots}(L_u^{(N)})}
$$

这些指标不直接等价于准确率，但可以解释系统是否过度集中在少数热门电影上，以及推荐结果是否具有一定探索性。

"#);
    assert(out@ =~= start + metric_section_text(top_n));
}

/// The report section on the limitations of the system.
pub open spec fn limitations_section_text() -> Seq<char> {
    "## 局限性\n\n"@
        + "主要局限包括：第一，内容特征只使用类型、标题 token 和年代，缺少剧情简介、演员、导演、关键词等语义信息，因此内容推荐表达能力有限；第二，知识规则是人工线性规则，解释性强但泛化能力有限；第三，矩阵分解是教学版 SGD，没有验证集早停、随机打乱、超参数搜索和置信区间分析；第四，目前只做一次固定 holdout，指标可能受切分方式影响；第五，搜索模块仍是简单标题匹配加热门度排序，没有使用倒排索引、TF-IDF 或 BM25。\n\n"@
}

/// Appends the section on the limitations of the system to a report.
pub fn push_limitations_section(out: &mut String)
    ensures
        final(out)@ == old(out)@ + limitations_section_text(),
{
    let ghost start = out@;
    crate::text::push_str(out, "## 局限性\n\n");
    crate::text::push_str(out, "主要局限包括：第一，内容特征只使用类型、标题 token 和年代，缺少剧情简介、演员、导演、关键词等语义信息，因此内容推荐表达能力有限；第二，知识规则是人工线性规则，解释性强但泛化能力有限；第三，矩阵分解是教学版 SGD，没有验证集早停、随机打乱、超参数搜索和置信区间分析；第四，目前只做一次固定 holdout，指标可能受切分方式影响；第五，搜索模块仍是简单标题匹配加热门度排序，没有使用倒排索引、TF-IDF 或 BM25。\n\n");
    assert(out@ =~= start + limitations_section_text());
}

} // verus!
